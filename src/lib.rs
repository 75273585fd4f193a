pub mod diagnostic;
pub mod laws;
pub mod lexicon;
pub mod literals;
pub mod rox;
pub mod scanner;
pub mod token;
pub mod token_type;
