pub mod analyzer;
pub mod report;
pub mod similarity;
pub mod tokenizer;
pub mod records;
pub mod console_writer;
