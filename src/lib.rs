pub mod lens;
pub mod modify;
pub mod select;
pub mod value;
pub mod view;
pub mod laws;
