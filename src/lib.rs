//! Line-level variable inspection for on-chain programs: scope-aware probe
//! placement, the line-oriented wire protocol and its decoder, the generated
//! serializers for user types, and the build self-correction rules.

pub mod text;
pub mod probe;
pub mod wire;
pub mod parse;
pub mod encode;
pub mod correct;
pub mod generate;
pub mod builtin;
pub mod session;
