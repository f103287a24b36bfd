//! A single-pass HTML sanitizer: markup is streamed through an external
//! tokenizer, and a verified decision engine drops disallowed elements
//! (keeping their content), strips disallowed attributes, and removes
//! comments when configured to.

pub mod policy;
pub mod engine;
pub mod stream;
pub mod laws;
pub mod purify;

pub use policy::AllowedElement;
pub use policy::Settings;
pub use purify::purifier;
pub use purify::try_purifier;
