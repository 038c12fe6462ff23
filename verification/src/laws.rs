//! What holds of the debugger as a whole, said of its inputs and results.
pub mod console;
pub mod drawing;
pub mod launching;
pub mod literals;
pub mod places;
pub mod reading;
pub mod runs;
pub mod screen;
pub mod stops;
