pub mod environment;
pub mod evaluator;
pub mod executor;
pub mod interpreter;
pub mod value;

pub use environment::Environment;
pub use evaluator::Evaluator;
pub use executor::Executor;
pub use interpreter::Interpreter;
pub use value::{Value, ValueView};
