pub mod arch;
pub mod trap;
pub mod mm;
pub mod fs;
pub mod net;
pub mod signal;
pub mod syscall;
pub mod task;
pub mod timer;
pub mod sync;
pub mod console;
pub mod plic;
pub mod epoll;
pub mod initramfs;
pub mod loader;
pub mod drivers;
pub mod virtio_hal;
pub mod memfile;
