pub use crate::spectrum_handler::State;
