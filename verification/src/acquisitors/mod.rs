pub mod file_reader;
