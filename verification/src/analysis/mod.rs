pub mod symbols;

pub use symbols::{Symbol, SymbolIndex, SymbolView};
