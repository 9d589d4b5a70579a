//! Generator of Montgomery multiplication procedures for prime fields of
//! 2 to 18 limbs of 64 bits, with the proofs that the procedures multiply.
//!
//! A procedure is a straight line of instructions for a small register
//! machine that has the two carry chains of `adcx` and `adox`:
//!
//! - [`emit`] writes the procedure for a limb count with one accumulator per
//!   limb;
//! - [`allocate`] rewrites it for the six hardware accumulators, spilling to
//!   scratch words where there are more limbs than registers;
//! - [`render`] and [`generator`] turn procedures into assembly text and
//!   into the source of the macros that dispatch on the limb count;
//! - [`interp`] runs procedures, and [`montgomery`] offers the generated
//!   multiplication and squaring as functions;
//! - [`theorems`] states what is proved of the generated procedures: they
//!   compute the Montgomery product, squaring agrees with multiplying, and
//!   spilling changes no result.
//!
//! [`batch`] plans the rounds of a batch subgroup check.

pub mod allocate;
pub mod batch;
pub mod bignum;
pub mod carry;
pub mod correct;
pub mod emit;
pub mod fidelity;
pub mod generator;
pub mod interp;
pub mod ir;
pub mod limits;
pub mod machine;
pub mod modular;
pub mod montgomery;
pub mod procedure;
pub mod registers;
pub mod render;
pub mod squaring;
pub mod table;
pub mod theorems;

pub use crate::batch::VerificationError;
pub use crate::generator::generate_macro_string;
pub use crate::limits::GenerationError;
pub use crate::montgomery::multiply;
pub use crate::montgomery::square;
pub use crate::table::build_dispatch_table;
pub use crate::table::DispatchTable;
