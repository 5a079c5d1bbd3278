//! The processor architecture: RISC-V 64 in supervisor mode. Installing the trap vector
//! and waiting for interrupts are instructions the platform layer issues.
pub mod riscv64;
