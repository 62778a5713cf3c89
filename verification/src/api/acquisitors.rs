pub use crate::spectrum_handler::AcquisitorSimple;
