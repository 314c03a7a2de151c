//! Orchestration of a local language model: token buffers, the stepwise
//! decoding state machine, instruct prompts, constrained choice among
//! candidates, and a narrative scene with bounded memory.

pub mod choice;
pub mod crafter;
pub mod codec;
pub mod error;
pub mod instruct;
pub mod scene;
pub mod session;
pub mod text;
pub mod token_string;
pub mod turn;
