//! Binary search over strictly sorted data, together with generators for the
//! sorted sequences it is run on: integers counting up from zero, and string
//! labels with a zero-padded index. Two search variants are provided, one
//! whose element accesses are checked on the spot and one whose accesses
//! are justified once by the loop invariant; both are proved to return the
//! position of the target exactly when it occurs in the sequence.

pub mod generate;
pub mod labels;
pub mod lex;
pub mod order;
pub mod search;

pub use generate::{generate_sorted_int_vec, generate_sorted_string_vec};
pub use labels::label_string;
pub use order::LinearOrder;
pub use search::{binary_search_safe, binary_search_unchecked};
