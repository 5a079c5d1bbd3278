//! RISC-V 64: the trap context and the supervisor binary interface.
pub mod trap;
pub mod sbi;
