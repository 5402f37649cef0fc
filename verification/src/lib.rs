//! Verified core logic for a family of small text-processing utilities:
//! a line/word/byte/char counter, an adjacent-duplicate line filter, a
//! line/byte head, line numbering, and argument joining.  File handling and
//! argument parsing live outside the library; every function here is pure
//! computation over in-memory values, with a proved contract.

pub mod cat;
pub mod chars;
pub mod echo;
pub mod fmt;
pub mod head;
pub mod split;
pub mod uniq;
pub mod wc;
