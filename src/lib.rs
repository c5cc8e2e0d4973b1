//! Finding the test names embedded in HTTP log file names, counting them, and
//! gathering the contents of the files that belong to one test.
pub mod extract;
pub mod text;
pub mod tally;
pub mod collect;
pub mod render;
