pub mod assembly;
pub mod compile;
pub mod ir;
