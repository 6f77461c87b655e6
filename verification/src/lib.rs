pub mod cli;
pub mod color;
pub mod format;
pub mod git;
pub mod hg;
pub mod laws;
pub mod status;
pub mod text;
pub mod util;
pub mod vcs;
