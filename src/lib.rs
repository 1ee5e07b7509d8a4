pub mod cli;
pub mod name;
pub mod people;
pub mod scrape;
