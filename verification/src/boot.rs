//! The Linux boot parameters: setup header, memory map and setup data.

use vstd::prelude::*;
use vstd::slice::slice_subrange;

use crate::bytes::{
    append, copy_into, law_le_round_trip, law_read_back_u32, law_read_back_u64, law_u32_value,
    le_bytes, lemma_digits_read, lemma_read_in_part, read_u32, read_u64, splice, u16_at,
    u16_digits, u32_at, u32_digits, u64_at, u64_digits,
};
use crate::loader::{
    CPUID_PAGE_ADDR, E820_TABLE_OFFSET, SECRETS_PAGE_ADDR, SECRETS_PAGE_LEN, ZERO_PAGE_START,
};
use crate::mem::MemoryRegion;

verus! {

/// Length of a memory map entry in bytes.
pub const E820_ENTRY_LEN: usize = 20;

/// Type of a memory map entry for usable memory.
pub const E820_RAM: u32 = 1;

/// Type of the setup data node for confidential computing.
pub const SETUP_CC_BLOB: u32 = 7;

/// First word of the confidential computing blob ("AMDE").
pub const CCBLOB_MAGIC: u32 = 0x45444d41;

/// Length of a setup data node in bytes.
pub const SETUP_DATA_LEN: usize = 20;

/// Length of the confidential computing blob in bytes.
pub const CCBLOB_LEN: usize = 40;

/// Length of the zero page in bytes.
pub const ZERO_PAGE_LEN: usize = 0x1000;

/// Where `boot_flag` stands in the zero page.
pub const BOOT_FLAG_OFFSET: usize = 0x1fe;

/// Where `ramdisk_image` stands in the zero page.
pub const RAMDISK_IMAGE_OFFSET: usize = 0x218;

/// Where `ramdisk_size` stands in the zero page.
pub const RAMDISK_SIZE_OFFSET: usize = 0x21c;

/// Where `setup_data` stands in the zero page.
pub const SETUP_DATA_OFFSET: usize = 0x250;

/// Where the confidential computing blob stands in the zero page: at its end.
pub const CCBLOB_AT: usize = 0xfd8;

/// Where the setup data node stands in the zero page: before the blob.
pub const SETUP_DATA_AT: usize = 0xfc4;

/// The setup header of the Linux boot protocol.
#[derive(Clone, Copy, Debug)]
pub struct Header {
    /// Size of the setup code in sectors.
    pub setup_sects: u8,
    /// Whether the root file system is mounted read-only.
    pub root_flags: u16,
    /// Size of the protected-mode code.
    pub syssize: u32,
    /// Obsolete.
    pub ram_size: u16,
    /// Video mode.
    pub vid_mode: u16,
    /// Root device.
    pub root_dev: u16,
    /// Magic number.
    pub boot_flag: u16,
    /// Jump instruction.
    pub jump: u16,
    /// Magic signature.
    pub header: [u8; 4],
    /// Boot protocol version.
    pub version: u16,
    /// Hook of the boot loader.
    pub realmode_swtch: u32,
    /// Obsolete.
    pub start_sys_seg: u16,
    /// Pointer to the version string.
    pub kernel_version: u16,
    /// Boot loader identifier.
    pub type_of_loader: u8,
    /// Boot protocol flags.
    pub loadflags: u8,
    /// Move to high memory size.
    pub setup_move_size: u16,
    /// Hook of the boot loader.
    pub code32_start: u32,
    /// Load address of the initrd.
    pub ramdisk_image: u32,
    /// Size of the initrd.
    pub ramdisk_size: u32,
    /// Obsolete.
    pub bootsect_kludge: u32,
    /// End of the setup heap.
    pub heap_end_ptr: u16,
    /// Extended boot loader version.
    pub ext_loader_ver: u8,
    /// Extended boot loader identifier.
    pub ext_loader_type: u8,
    /// Pointer to the command line.
    pub cmd_line_ptr: u32,
    /// Highest address for the initrd.
    pub initrd_addr_max: u32,
    /// Alignment that the kernel requires.
    pub kernel_alignment: u32,
    /// Whether the kernel is relocatable.
    pub relocatable_kernel: u8,
    /// Minimum alignment, as a power of two.
    pub min_alignment: u8,
    /// Boot protocol flags.
    pub xloadflags: u16,
    /// Maximum size of the command line.
    pub cmdline_size: u32,
    /// Hardware subarchitecture.
    pub hardware_subarch: u32,
    /// Subarchitecture data.
    pub hardware_subarch_data: u64,
    /// Offset of the payload.
    pub payload_offset: u32,
    /// Length of the payload.
    pub payload_length: u32,
    /// Pointer to the list of setup data nodes.
    pub setup_data: u64,
    /// Preferred load address.
    pub pref_address: u64,
    /// Memory that initialization takes.
    pub init_size: u32,
    /// Offset of the handover entry point.
    pub handover_offset: u32,
}

impl Header {
    /// The setup header whose fields are all zero.
    pub open spec fn zeroed() -> Self {
        Header {
            setup_sects: 0,
            root_flags: 0,
            syssize: 0,
            ram_size: 0,
            vid_mode: 0,
            root_dev: 0,
            boot_flag: 0,
            jump: 0,
            header: [0, 0, 0, 0],
            version: 0,
            realmode_swtch: 0,
            start_sys_seg: 0,
            kernel_version: 0,
            type_of_loader: 0,
            loadflags: 0,
            setup_move_size: 0,
            code32_start: 0,
            ramdisk_image: 0,
            ramdisk_size: 0,
            bootsect_kludge: 0,
            heap_end_ptr: 0,
            ext_loader_ver: 0,
            ext_loader_type: 0,
            cmd_line_ptr: 0,
            initrd_addr_max: 0,
            kernel_alignment: 0,
            relocatable_kernel: 0,
            min_alignment: 0,
            xloadflags: 0,
            cmdline_size: 0,
            hardware_subarch: 0,
            hardware_subarch_data: 0,
            payload_offset: 0,
            payload_length: 0,
            setup_data: 0,
            pref_address: 0,
            init_size: 0,
            handover_offset: 0,
        }
    }
}

impl Default for Header {
    fn default() -> (header: Self)
        ensures
            header == Header::zeroed(),
    {
        Header {
            setup_sects: 0,
            root_flags: 0,
            syssize: 0,
            ram_size: 0,
            vid_mode: 0,
            root_dev: 0,
            boot_flag: 0,
            jump: 0,
            header: [0, 0, 0, 0],
            version: 0,
            realmode_swtch: 0,
            start_sys_seg: 0,
            kernel_version: 0,
            type_of_loader: 0,
            loadflags: 0,
            setup_move_size: 0,
            code32_start: 0,
            ramdisk_image: 0,
            ramdisk_size: 0,
            bootsect_kludge: 0,
            heap_end_ptr: 0,
            ext_loader_ver: 0,
            ext_loader_type: 0,
            cmd_line_ptr: 0,
            initrd_addr_max: 0,
            kernel_alignment: 0,
            relocatable_kernel: 0,
            min_alignment: 0,
            xloadflags: 0,
            cmdline_size: 0,
            hardware_subarch: 0,
            hardware_subarch_data: 0,
            payload_offset: 0,
            payload_length: 0,
            setup_data: 0,
            pref_address: 0,
            init_size: 0,
            handover_offset: 0,
        }
    }
}

/// An entry of the memory map.
#[derive(Clone, Copy, Debug, PartialEq, Eq, Structural)]
pub struct BootE820Entry {
    /// The first address.
    pub addr: u64,
    /// The number of bytes.
    pub size: u64,
    /// What the range is.
    pub type_: u32,
}

/// A node of the setup data list that points to the confidential computing
/// blob.
#[derive(Clone, Copy, Debug, PartialEq, Eq, Structural)]
pub struct SetupData {
    /// Address of the next node.
    pub next: u64,
    /// Type of the node.
    pub _type: u32,
    /// Length of what follows.
    pub len: u32,
    /// Address of the blob.
    pub cc_blob_addr: u32,
}

/// The confidential computing blob: where the secrets and CPUID pages lie.
#[derive(Clone, Copy, Debug, PartialEq, Eq, Structural)]
pub struct CCBlob {
    /// Magic number.
    pub magic: u32,
    /// Version.
    pub version: u16,
    /// Zero.
    pub reserved: u16,
    /// Address of the secrets page.
    pub secrets_phys: u64,
    /// Length of the secrets page.
    pub secrets_len: u32,
    /// Zero.
    pub reserved1: u32,
    /// Address of the CPUID page.
    pub cpuid_phys: u64,
    /// Length of the CPUID page.
    pub cpuid_len: u32,
    /// Zero.
    pub reserved2: u32,
}

impl SetupData {
    /// The node's bytes in memory.
    pub open spec fn encoded(self) -> Seq<u8> {
        le_bytes(self.next as nat, 8) + le_bytes(self._type as nat, 4) + le_bytes(
            self.len as nat,
            4,
        ) + le_bytes(self.cc_blob_addr as nat, 4)
    }

    /// The node's bytes in memory.
    pub fn as_slice(&self) -> (v: Vec<u8>)
        ensures
            v@ == self.encoded(),
    {
        let mut v: Vec<u8> = Vec::new();
        append(&mut v, u64_digits(self.next).as_slice());
        append(&mut v, u32_digits(self._type).as_slice());
        append(&mut v, u32_digits(self.len).as_slice());
        append(&mut v, u32_digits(self.cc_blob_addr).as_slice());
        assert(v@ =~= self.encoded());
        v
    }
}

impl CCBlob {
    /// The blob's bytes in memory.
    pub open spec fn encoded(self) -> Seq<u8> {
        le_bytes(self.magic as nat, 4) + le_bytes(self.version as nat, 2) + le_bytes(
            self.reserved as nat,
            2,
        ) + le_bytes(self.secrets_phys as nat, 8) + le_bytes(self.secrets_len as nat, 4) + le_bytes(
            self.reserved1 as nat,
            4,
        ) + le_bytes(self.cpuid_phys as nat, 8) + le_bytes(self.cpuid_len as nat, 4) + le_bytes(
            self.reserved2 as nat,
            4,
        )
    }

    /// The blob's bytes in memory.
    pub fn as_slice(&self) -> (v: Vec<u8>)
        ensures
            v@ == self.encoded(),
    {
        let mut v: Vec<u8> = Vec::new();
        append(&mut v, u32_digits(self.magic).as_slice());
        append(&mut v, u16_digits(self.version).as_slice());
        append(&mut v, u16_digits(self.reserved).as_slice());
        append(&mut v, u64_digits(self.secrets_phys).as_slice());
        append(&mut v, u32_digits(self.secrets_len).as_slice());
        append(&mut v, u32_digits(self.reserved1).as_slice());
        append(&mut v, u64_digits(self.cpuid_phys).as_slice());
        append(&mut v, u32_digits(self.cpuid_len).as_slice());
        append(&mut v, u32_digits(self.reserved2).as_slice());
        assert(v@ =~= self.encoded());
        v
    }
}

/// The setup data node that the firmware adds.
pub open spec fn firmware_setup_data() -> SetupData {
    SetupData {
        next: 0,
        _type: SETUP_CC_BLOB,
        len: 4,
        cc_blob_addr: (ZERO_PAGE_START + CCBLOB_AT) as u32,
    }
}

/// The confidential computing blob that the firmware adds.
pub open spec fn firmware_cc_blob() -> CCBlob {
    CCBlob {
        magic: CCBLOB_MAGIC,
        version: 0,
        reserved: 0,
        secrets_phys: SECRETS_PAGE_ADDR,
        secrets_len: SECRETS_PAGE_LEN as u32,
        reserved1: 0,
        cpuid_phys: CPUID_PAGE_ADDR,
        cpuid_len: 4096,
        reserved2: 0,
    }
}

/// The zero page with the place and the length of the initrd entered.
pub open spec fn with_ramdisk(page: Seq<u8>, image: u32, size: u32) -> Seq<u8> {
    splice(
        splice(page, RAMDISK_IMAGE_OFFSET as int, le_bytes(image as nat, 4)),
        RAMDISK_SIZE_OFFSET as int,
        le_bytes(size as nat, 4),
    )
}

/// The zero page with the firmware's node and blob at its end and the setup
/// header pointing to the node, unless the setup header points to another node
/// already.
pub open spec fn with_setup_data(page: Seq<u8>) -> Seq<u8> {
    if u64_at(page, SETUP_DATA_OFFSET as int) != 0 {
        page
    } else {
        splice(
            splice(
                splice(page, SETUP_DATA_AT as int, firmware_setup_data().encoded()),
                CCBLOB_AT as int,
                firmware_cc_blob().encoded(),
            ),
            SETUP_DATA_OFFSET as int,
            le_bytes((ZERO_PAGE_START + SETUP_DATA_AT) as nat, 8),
        )
    }
}

proof fn lemma_encoded_lengths()
    ensures
        firmware_setup_data().encoded().len() == SETUP_DATA_LEN,
        firmware_cc_blob().encoded().len() == CCBLOB_LEN,
{
    let d = firmware_setup_data();
    let c = firmware_cc_blob();
    law_le_round_trip(d.next as nat, 8);
    law_le_round_trip(d._type as nat, 4);
    law_le_round_trip(d.len as nat, 4);
    law_le_round_trip(d.cc_blob_addr as nat, 4);
    law_le_round_trip(c.magic as nat, 4);
    law_le_round_trip(c.version as nat, 2);
    law_le_round_trip(c.reserved as nat, 2);
    law_le_round_trip(c.secrets_phys as nat, 8);
    law_le_round_trip(c.secrets_len as nat, 4);
    law_le_round_trip(c.reserved1 as nat, 4);
    law_le_round_trip(c.cpuid_phys as nat, 8);
    law_le_round_trip(c.cpuid_len as nat, 4);
    law_le_round_trip(c.reserved2 as nat, 4);
}

/// Enters the place and the length of the initrd in the zero page.
pub fn set_ramdisk(page: &mut [u8], image: u32, size: u32)
    requires
        old(page)@.len() == ZERO_PAGE_LEN,
    ensures
        final(page)@ == with_ramdisk(old(page)@, image, size),
{
    copy_into(page, RAMDISK_IMAGE_OFFSET, u32_digits(image).as_slice());
    copy_into(page, RAMDISK_SIZE_OFFSET, u32_digits(size).as_slice());
}

/// Adds the firmware's setup data to the zero page, unless the setup header
/// points to setup data already.
pub fn link_setup_data(page: &mut [u8])
    requires
        old(page)@.len() == ZERO_PAGE_LEN,
    ensures
        final(page)@ == with_setup_data(old(page)@),
{
    if read_u64(page, SETUP_DATA_OFFSET) == 0 {
        let setup_data = SetupData {
            next: 0,
            _type: SETUP_CC_BLOB,
            len: 4,
            cc_blob_addr: (ZERO_PAGE_START + CCBLOB_AT as u64) as u32,
        };
        let cc_blob = CCBlob {
            magic: CCBLOB_MAGIC,
            version: 0,
            reserved: 0,
            secrets_phys: SECRETS_PAGE_ADDR,
            secrets_len: SECRETS_PAGE_LEN as u32,
            reserved1: 0,
            cpuid_phys: CPUID_PAGE_ADDR,
            cpuid_len: 4096,
            reserved2: 0,
        };
        proof {
            lemma_encoded_lengths();
        }
        copy_into(page, SETUP_DATA_AT, setup_data.as_slice().as_slice());
        copy_into(page, CCBLOB_AT, cc_blob.as_slice().as_slice());
        copy_into(
            page,
            SETUP_DATA_OFFSET,
            u64_digits(ZERO_PAGE_START + SETUP_DATA_AT as u64).as_slice(),
        );
    }
}

/// The two bytes of the setup header's magic number, the low byte first.
pub fn boot_flag(page: &[u8]) -> (flag: [u8; 2])
    requires
        page@.len() == ZERO_PAGE_LEN,
    ensures
        flag@ == page@.subrange(BOOT_FLAG_OFFSET as int, BOOT_FLAG_OFFSET + 2),
        flag@ == seq![page@[0x1fe], page@[0x1ff]],
{
    let flag: [u8; 2] = [page[BOOT_FLAG_OFFSET], page[BOOT_FLAG_OFFSET + 1]];
    assert(flag@ =~= page@.subrange(BOOT_FLAG_OFFSET as int, BOOT_FLAG_OFFSET + 2));
    flag
}

/// The memory map entry that the bytes `b` hold.
pub open spec fn e820_entry_of(b: Seq<u8>) -> BootE820Entry {
    BootE820Entry { addr: u64_at(b, 0), size: u64_at(b, 8), type_: u32_at(b, 16) }
}

/// The first `n` entries of the memory map `table`.
pub open spec fn e820_entries(table: Seq<u8>, n: nat) -> Seq<BootE820Entry> {
    Seq::new(n, |i: int| e820_entry_of(table.subrange(20 * i, 20 * i + 20)))
}

/// Where a memory map of `count` entries lies.
pub fn e820_table_region(count: u8) -> (region: MemoryRegion)
    ensures
        region.base == ZERO_PAGE_START + E820_TABLE_OFFSET,
        region.length == count * E820_ENTRY_LEN,
        region.base == 0x72d0,
        region.length == 20 * count,
{
    MemoryRegion::new(ZERO_PAGE_START + E820_TABLE_OFFSET, count as u64 * 20)
}

/// The entries of the memory map for usable memory, in the order of the map:
/// the memory that is to be validated.
pub fn ram_entries(table: &[u8], count: u8) -> (entries: Vec<BootE820Entry>)
    requires
        table@.len() == count * E820_ENTRY_LEN,
    ensures
        entries@ == e820_entries(table@, count as nat).filter(
            |e: BootE820Entry| e.type_ == E820_RAM,
        ),
        forall|e: BootE820Entry| entries@.contains(e) ==> e.type_ == 1,
{
    let ghost all = e820_entries(table@, count as nat);
    let ghost is_ram = |e: BootE820Entry| e.type_ == E820_RAM;
    let mut entries: Vec<BootE820Entry> = Vec::new();
    let mut i: usize = 0;
    while i < count as usize
        invariant
            i <= count,
            table@.len() == count * E820_ENTRY_LEN,
            all == e820_entries(table@, count as nat),
            is_ram == (|e: BootE820Entry| e.type_ == E820_RAM),
            entries@ == all.take(i as int).filter(is_ram),
        decreases count - i,
    {
        let record: &[u8] = slice_subrange(table, i * 20, i * 20 + 20);
        let entry = BootE820Entry {
            addr: read_u64(record, 0),
            size: read_u64(record, 8),
            type_: read_u32(record, 16),
        };
        proof {
            assert(entry == all[i as int]);
            reveal(Seq::filter);
            assert(all.take(i + 1).drop_last() =~= all.take(i as int));
            assert(all.take(i + 1).last() == entry);
        }
        if entry.type_ == E820_RAM {
            entries.push(entry);
        }
        i = i + 1;
    }
    assert(all.take(count as int) =~= all);
    entries
}

/// The place and the length of the initrd are read back from the zero page, and
/// its other bytes are as they were.
pub proof fn law_ramdisk_read_back(page: Seq<u8>, image: u32, size: u32)
    requires
        page.len() == ZERO_PAGE_LEN,
    ensures
        u32_at(with_ramdisk(page, image, size), RAMDISK_IMAGE_OFFSET as int) == image,
        u32_at(with_ramdisk(page, image, size), RAMDISK_SIZE_OFFSET as int) == size,
        forall|i: int|
            0 <= i < ZERO_PAGE_LEN && !(RAMDISK_IMAGE_OFFSET <= i < RAMDISK_SIZE_OFFSET + 4)
                ==> with_ramdisk(page, image, size)[i] == page[i],
{
    let a = RAMDISK_IMAGE_OFFSET as int;
    let p = splice(page, a, le_bytes(image as nat, 4));
    let q = with_ramdisk(page, image, size);
    law_le_round_trip(image as nat, 4);
    law_le_round_trip(size as nat, 4);
    law_read_back_u32(page, a, image);
    law_read_back_u32(p, RAMDISK_SIZE_OFFSET as int, size);
    assert(q.subrange(a, a + 4) =~= p.subrange(a, a + 4));
}

/// A zero page without setup data gets the firmware's: the setup header points to
/// the node, the node to the blob, and the other bytes are as they were.
pub proof fn law_setup_data_linked(page: Seq<u8>)
    requires
        page.len() == ZERO_PAGE_LEN,
        u64_at(page, SETUP_DATA_OFFSET as int) == 0,
    ensures
        ({
            let q = with_setup_data(page);
            &&& u64_at(q, SETUP_DATA_OFFSET as int) == ZERO_PAGE_START + SETUP_DATA_AT
            &&& q.subrange(SETUP_DATA_AT as int, CCBLOB_AT as int)
                == firmware_setup_data().encoded()
            &&& firmware_setup_data().cc_blob_addr == ZERO_PAGE_START + CCBLOB_AT
            &&& q.subrange(CCBLOB_AT as int, ZERO_PAGE_LEN as int) == firmware_cc_blob().encoded()
            &&& forall|i: int|
                0 <= i < SETUP_DATA_AT && !(SETUP_DATA_OFFSET <= i < SETUP_DATA_OFFSET + 8)
                    ==> q[i] == page[i]
        }),
{
    let addr: u64 = (ZERO_PAGE_START + SETUP_DATA_AT) as u64;
    let p1 = splice(page, SETUP_DATA_AT as int, firmware_setup_data().encoded());
    let p2 = splice(p1, CCBLOB_AT as int, firmware_cc_blob().encoded());
    let q = with_setup_data(page);
    lemma_encoded_lengths();
    law_le_round_trip(addr as nat, 8);
    law_read_back_u64(p2, SETUP_DATA_OFFSET as int, addr);
    assert(q.subrange(SETUP_DATA_AT as int, CCBLOB_AT as int)
        =~= firmware_setup_data().encoded());
    assert(q.subrange(CCBLOB_AT as int, ZERO_PAGE_LEN as int) =~= firmware_cc_blob().encoded());
}

/// Setup data are added once: adding them again changes nothing.
pub proof fn law_setup_data_once(page: Seq<u8>)
    requires
        page.len() == ZERO_PAGE_LEN,
    ensures
        with_setup_data(with_setup_data(page)) == with_setup_data(page),
{
    if u64_at(page, SETUP_DATA_OFFSET as int) == 0 {
        law_setup_data_linked(page);
    }
}

/// A setup header that was not read is all zeros.
pub proof fn law_header_zeroed()
    ensures
        Header::zeroed().setup_sects == 0,
        Header::zeroed().root_flags == 0,
        Header::zeroed().syssize == 0,
        Header::zeroed().ram_size == 0,
        Header::zeroed().vid_mode == 0,
        Header::zeroed().root_dev == 0,
        Header::zeroed().boot_flag == 0,
        Header::zeroed().jump == 0,
        Header::zeroed().version == 0,
        Header::zeroed().realmode_swtch == 0,
        Header::zeroed().start_sys_seg == 0,
        Header::zeroed().kernel_version == 0,
        Header::zeroed().type_of_loader == 0,
        Header::zeroed().loadflags == 0,
        Header::zeroed().setup_move_size == 0,
        Header::zeroed().code32_start == 0,
        Header::zeroed().ramdisk_image == 0,
        Header::zeroed().ramdisk_size == 0,
        Header::zeroed().bootsect_kludge == 0,
        Header::zeroed().heap_end_ptr == 0,
        Header::zeroed().ext_loader_ver == 0,
        Header::zeroed().ext_loader_type == 0,
        Header::zeroed().cmd_line_ptr == 0,
        Header::zeroed().initrd_addr_max == 0,
        Header::zeroed().kernel_alignment == 0,
        Header::zeroed().relocatable_kernel == 0,
        Header::zeroed().min_alignment == 0,
        Header::zeroed().xloadflags == 0,
        Header::zeroed().cmdline_size == 0,
        Header::zeroed().hardware_subarch == 0,
        Header::zeroed().hardware_subarch_data == 0,
        Header::zeroed().payload_offset == 0,
        Header::zeroed().payload_length == 0,
        Header::zeroed().setup_data == 0,
        Header::zeroed().pref_address == 0,
        Header::zeroed().init_size == 0,
        Header::zeroed().handover_offset == 0,
        Header::zeroed().header@ == seq![0u8, 0, 0, 0],
{
    assert(Header::zeroed().header@ =~= seq![0u8, 0, 0, 0]);
}

/// Where the fields of a setup data node stand in its bytes.
pub proof fn law_setup_data_encoded(d: SetupData)
    ensures
        d.encoded().len() == 20,
        u64_at(d.encoded(), 0) == d.next,
        u32_at(d.encoded(), 8) == d._type,
        u32_at(d.encoded(), 12) == d.len,
        u32_at(d.encoded(), 16) == d.cc_blob_addr,
{
    let e = d.encoded();
    law_le_round_trip(d.next as nat, 8);
    law_le_round_trip(d._type as nat, 4);
    law_le_round_trip(d.len as nat, 4);
    law_le_round_trip(d.cc_blob_addr as nat, 4);
    assert(e.subrange(0, 8) =~= le_bytes(d.next as nat, 8));
    assert(e.subrange(8, 12) =~= le_bytes(d._type as nat, 4));
    assert(e.subrange(12, 16) =~= le_bytes(d.len as nat, 4));
    assert(e.subrange(16, 20) =~= le_bytes(d.cc_blob_addr as nat, 4));
    lemma_digits_read(e, 0, d.next);
    lemma_digits_read(e, 8, d._type as u64);
    lemma_digits_read(e, 12, d.len as u64);
    lemma_digits_read(e, 16, d.cc_blob_addr as u64);
}

/// Where the fields of a confidential computing blob stand in its bytes.
pub proof fn law_cc_blob_encoded(c: CCBlob)
    ensures
        c.encoded().len() == 40,
        u32_at(c.encoded(), 0) == c.magic,
        u16_at(c.encoded(), 4) == c.version,
        u16_at(c.encoded(), 6) == c.reserved,
        u64_at(c.encoded(), 8) == c.secrets_phys,
        u32_at(c.encoded(), 16) == c.secrets_len,
        u32_at(c.encoded(), 20) == c.reserved1,
        u64_at(c.encoded(), 24) == c.cpuid_phys,
        u32_at(c.encoded(), 32) == c.cpuid_len,
        u32_at(c.encoded(), 36) == c.reserved2,
{
    let e = c.encoded();
    law_le_round_trip(c.magic as nat, 4);
    law_le_round_trip(c.version as nat, 2);
    law_le_round_trip(c.reserved as nat, 2);
    law_le_round_trip(c.secrets_phys as nat, 8);
    law_le_round_trip(c.secrets_len as nat, 4);
    law_le_round_trip(c.reserved1 as nat, 4);
    law_le_round_trip(c.cpuid_phys as nat, 8);
    law_le_round_trip(c.cpuid_len as nat, 4);
    law_le_round_trip(c.reserved2 as nat, 4);
    assert(e.subrange(0, 4) =~= le_bytes(c.magic as nat, 4));
    assert(e.subrange(4, 6) =~= le_bytes(c.version as nat, 2));
    assert(e.subrange(6, 8) =~= le_bytes(c.reserved as nat, 2));
    assert(e.subrange(8, 16) =~= le_bytes(c.secrets_phys as nat, 8));
    assert(e.subrange(16, 20) =~= le_bytes(c.secrets_len as nat, 4));
    assert(e.subrange(20, 24) =~= le_bytes(c.reserved1 as nat, 4));
    assert(e.subrange(24, 32) =~= le_bytes(c.cpuid_phys as nat, 8));
    assert(e.subrange(32, 36) =~= le_bytes(c.cpuid_len as nat, 4));
    assert(e.subrange(36, 40) =~= le_bytes(c.reserved2 as nat, 4));
    lemma_digits_read(e, 0, c.magic as u64);
    lemma_digits_read(e, 4, c.version as u64);
    lemma_digits_read(e, 6, c.reserved as u64);
    lemma_digits_read(e, 8, c.secrets_phys);
    lemma_digits_read(e, 16, c.secrets_len as u64);
    lemma_digits_read(e, 20, c.reserved1 as u64);
    lemma_digits_read(e, 24, c.cpuid_phys);
    lemma_digits_read(e, 32, c.cpuid_len as u64);
    lemma_digits_read(e, 36, c.reserved2 as u64);
}

/// A kernel that walks the setup data list of a zero page to which the firmware
/// added its own finds one node, which is the last, of type 7, with four bytes of
/// data: the address of a blob that begins with "AMDE" and gives the places and
/// lengths of the secrets page and of the CPUID page. A zero page with setup data,
/// and all other bytes, stay as they were.
pub proof fn law_setup_data_list(page: Seq<u8>)
    requires
        page.len() == 0x1000,
    ensures
        with_setup_data(page).len() == 0x1000,
        u64_at(page, 0x250) != 0 ==> with_setup_data(page) == page,
        u64_at(page, 0x250) == 0 ==> {
            let q = with_setup_data(page);
            let node = u64_at(q, 0x250) - 0x7000;
            let blob = u32_at(q, node + 16) - 0x7000;
            &&& node == 0xfc4
            &&& u64_at(q, node) == 0
            &&& u32_at(q, node + 8) == 7
            &&& u32_at(q, node + 12) == 4
            &&& blob == 0xfd8
            &&& u32_at(q, blob) == 0x45444d41
            &&& q[blob] == 0x41 && q[blob + 1] == 0x4d && q[blob + 2] == 0x44 && q[blob + 3] == 0x45
            &&& u16_at(q, blob + 4) == 0
            &&& u16_at(q, blob + 6) == 0
            &&& u64_at(q, blob + 8) == 0x2000
            &&& u32_at(q, blob + 16) == 0x1000
            &&& u32_at(q, blob + 20) == 0
            &&& u64_at(q, blob + 24) == 0x1000
            &&& u32_at(q, blob + 32) == 0x1000
            &&& u32_at(q, blob + 36) == 0
            &&& forall|i: int|
                0 <= i < 0xfc4 && !(0x250 <= i < 0x258) ==> #[trigger] q[i] == page[i]
        },
{
    if u64_at(page, 0x250) == 0 {
        let q = with_setup_data(page);
        law_setup_data_linked(page);
        law_setup_data_encoded(firmware_setup_data());
        law_cc_blob_encoded(firmware_cc_blob());
        lemma_read_in_part(q, 0xfc4, 0xfd8, 0);
        lemma_read_in_part(q, 0xfc4, 0xfd8, 8);
        lemma_read_in_part(q, 0xfc4, 0xfd8, 12);
        lemma_read_in_part(q, 0xfc4, 0xfd8, 16);
        lemma_read_in_part(q, 0xfd8, 0x1000, 0);
        lemma_read_in_part(q, 0xfd8, 0x1000, 4);
        lemma_read_in_part(q, 0xfd8, 0x1000, 6);
        lemma_read_in_part(q, 0xfd8, 0x1000, 8);
        lemma_read_in_part(q, 0xfd8, 0x1000, 16);
        lemma_read_in_part(q, 0xfd8, 0x1000, 20);
        lemma_read_in_part(q, 0xfd8, 0x1000, 24);
        lemma_read_in_part(q, 0xfd8, 0x1000, 32);
        lemma_read_in_part(q, 0xfd8, 0x1000, 36);
        law_u32_value(q, 0xfd8);
    }
}

/// The initrd is entered in the zero page: its place in the four bytes at 0x218, its
/// length in the four behind them, and all other bytes are as they were.
pub proof fn law_ramdisk_entered(page: Seq<u8>, image: u32, size: u32)
    requires
        page.len() == 0x1000,
    ensures
        with_ramdisk(page, image, size).len() == 0x1000,
        u32_at(with_ramdisk(page, image, size), 0x218) == image,
        u32_at(with_ramdisk(page, image, size), 0x21c) == size,
        with_ramdisk(page, image, size).subrange(0, 0x218) == page.subrange(0, 0x218),
        with_ramdisk(page, image, size).subrange(0x220, 0x1000) == page.subrange(0x220, 0x1000),
{
    law_ramdisk_read_back(page, image, size);
    assert(with_ramdisk(page, image, size).subrange(0, 0x218) =~= page.subrange(0, 0x218));
    assert(with_ramdisk(page, image, size).subrange(0x220, 0x1000) =~= page.subrange(
        0x220,
        0x1000,
    ));
}

/// The memory map is a row of records of 20 bytes: the first address, the number of
/// bytes and the type.
pub proof fn law_e820_entries(table: Seq<u8>, n: nat, i: int)
    requires
        table.len() == 20 * n,
        0 <= i < n,
    ensures
        e820_entries(table, n).len() == n,
        e820_entries(table, n)[i].addr == u64_at(table, 20 * i),
        e820_entries(table, n)[i].size == u64_at(table, 20 * i + 8),
        e820_entries(table, n)[i].type_ == u32_at(table, 20 * i + 16),
{
    lemma_read_in_part(table, 20 * i, 20 * i + 20, 0);
    lemma_read_in_part(table, 20 * i, 20 * i + 20, 8);
    lemma_read_in_part(table, 20 * i, 20 * i + 20, 16);
}

} // verus!
