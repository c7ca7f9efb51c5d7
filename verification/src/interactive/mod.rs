//! The interactive layer of VCD 3.0 discs: the page script language, its
//! interpreter, and the kernel state it drives.

pub mod script_ast;
pub mod script_vm;
pub mod kernel;
