pub mod ticker;
