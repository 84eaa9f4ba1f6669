pub mod compiler;
pub mod x86_64_emitter;
