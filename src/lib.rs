//! Symbolic validation of inference tokens, a decaying operator-stress index,
//! and a feedback sink with a bounded pending queue.
pub mod text;
pub mod constraint;
pub mod validator;
pub mod vexation;
pub mod feedback;
