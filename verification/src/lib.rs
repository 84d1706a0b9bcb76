//! A small collection of verified exercise libraries: an arbitrary-precision
//! Fibonacci engine built on matrix exponentiation, a department roster, a
//! mode calculator, a pig-latin converter, and a line searcher.

pub mod adder;
pub mod text;
pub mod bignum;
pub mod matrix;
pub mod fib;
pub mod grep;
pub mod pig_latin;
pub mod stats;
pub mod department;
pub mod carol;
