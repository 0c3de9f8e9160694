//! Host-side core of a small hypervisor for unikernels: guest memory, boot
//! pagetables, guest address translation, the guest-to-host path map and the
//! hypercall interface, with their contracts proved by Verus.
use vstd::prelude::*;

pub mod cmdline;
pub mod consts;
pub mod filemap;
pub mod hypercall;
pub mod mem;
pub mod paging;
pub mod params;
pub mod vm;
