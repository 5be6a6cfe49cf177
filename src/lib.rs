//! Detects which release of Blender saved a `.blend` file, whether it is
//! stored raw, gzip- or zstd-compressed, and decides which configured
//! executable can open it.
pub mod cli;
pub mod config;
pub mod exec;
pub mod file_normalizer;
pub mod text;
pub mod version_checker;

pub use cli::{extra_args, is_background_mode};
pub use config::{can_open, Settings};
pub use exec::{default_install_path, is_shortcut};
pub use file_normalizer::{classify_magic, version_from_header, CompressionKind, UnknownMagicBytes};
pub use version_checker::{get_version, BlenderVersion, InvalidVersionHeader};
