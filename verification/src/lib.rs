//! Boot firmware for encrypted guests: the rules by which a kernel image is
//! taken from the hypervisor, measured, placed in encrypted memory, relocated
//! and started.

pub mod action;
pub mod boot;
pub mod bytes;
pub mod cpu;
pub mod elf;
pub mod elf_load;
pub mod fault;
pub mod fw_cfg;
pub mod ghcb;
pub mod guest_laws;
pub mod image_laws;
pub mod initrd;
pub mod load_laws;
pub mod load_state;
pub mod loader;
pub mod measure;
pub mod mem;
pub mod reloc;
pub mod reloc_laws;
pub mod step_laws;
