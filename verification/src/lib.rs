pub mod registers;
pub mod text;
pub mod number;
pub mod memory;
pub mod labels;
pub mod bits;
pub mod instruction;
pub mod machine;
pub mod assembler;
pub mod laws;
