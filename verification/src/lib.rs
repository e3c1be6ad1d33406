pub mod attribution;
pub mod bounds;
pub mod budget;
pub mod names;
pub mod order;
pub mod partition;
pub mod records;
pub mod strategy;
pub mod trial;
