# katsu

An image builder for RPM/DNF based systems: it builds a root filesystem with
DNF or from a bootc container image, and turns it into an ISO 9660 image, a
raw disk image or a plain folder.

The library in `src/` holds the logic of a build, verified with Verus: the
partition layout of a disk and the order its partitions are mounted and
unmounted in, the commands each step runs (parted, dracut, mksquashfs,
mkfs.erofs, xorriso, GRUB and Limine tools, DNF, podman), the resolution of
script dependencies and priorities, user accounts and their shadow entries,
and the file texts a build writes (fstab, limine.cfg) or the variables its
bootloader configuration templates are rendered with. Each public function
states its result in its contract; the laws that span several functions are
public proof functions (`law_*`).

`src/bindings.rs` is where the library calls other crates (bytesize, uuid,
shellish_parse, indexmap, tera) and std functions without a Verus
specification; each call stands behind a small trusted item. Its contract
states what the called code's source or documentation shows of every
outcome: exactly where that is short (a UUID's text), by a name where the
result takes pages to state but depends on the arguments alone (how a
command line splits into words), and only what holds on every platform where
the result can vary (bytesize picks the unit of a large byte count through
floating point, so what is stated is its form and that the printed value is
within a tenth of a unit of the count; the functions that use it also take
the rendered texts as arguments).

`app/` is the command-line program around the library: argument parsing,
reading manifests, running commands, mounting and chroots.
