//! Emoji assets from generated images.
//!
//! A generated image shows its subject on a solid green backdrop. The
//! library judges the backdrop (`background`), strips it by a fill from the
//! border (`flood`) or by a colour key (`removal`), crops to what is left
//! (`crop`), and centres the scaled content on a transparent canvas
//! (`compose`); `pipeline` strings these together. One request runs several
//! such attempts: `task` is the state machine of one attempt and
//! `orchestrator` gathers the attempts' outcomes in the order of their
//! indices. `codec` and `transport` hold the calls into the `image` and
//! `base64` crates. The remaining modules hold the rules around the request:
//! prompts, answers, file names and the API key.

pub mod background;
pub mod codec;
pub mod compose;
pub mod credentials;
pub mod crop;
pub mod filename;
pub mod flood;
pub mod gemini;
pub mod orchestrator;
pub mod pipeline;
pub mod pixel;
pub mod prompt;
pub mod raster;
pub mod removal;
pub mod task;
pub mod text;
pub mod transport;
