# hypervisor-fw

Boot firmware for SEV-SNP guests that start a decompressed ELF kernel. The
hypervisor serves the kernel piece by piece in a bounce buffer. The firmware
copies each piece to encrypted memory, measures it there, relocates the kernel
where it is position-independent, fills in the boot parameters, checks the
initrd against its reference hash and enters the kernel.

The measurement of the kernel is computed and not compared with a reference:
nobody should rely on this firmware for security.

- `src/` is the verified library. What the firmware does to the machine is
  described by values (`action`, `ghcb::GhcbAction`); loading is a machine whose
  steps (`elf_load`) lie between two such actions. `load_state` says what each
  step does, `load_laws` what holds of whole loads, `guest_laws` what holds of
  loads in the guest's memory, `image_laws` what that memory holds when the kernel
  is entered.
- `tests/` runs the library against a simulated hypervisor.
- `app/` is the firmware itself: port and register access, physical memory, and
  the loop that carries out the actions. Page tables, page validation and the
  interrupt table are provided by the platform it is linked with.
