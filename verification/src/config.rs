//! The program's settings and how a settings file decides them.
use vstd::prelude::*;

verus! {

/// The program's settings.
#[derive(Debug, Clone, Copy, PartialEq, Eq, Structural)]
pub struct Config {
    /// Whether to print the banner on start.
    pub show_banner: bool,
}

/// The value of a setting that a settings file leaves out: `true`.
pub fn default_true() -> (b: bool)
    ensures
        b,
{
    true
}

impl Default for Config {
    /// Settings with every flag off.
    fn default() -> (c: Self)
        ensures
            !c.show_banner,
    {
        Config { show_banner: false }
    }
}

/// What reading the settings file gave.
#[derive(Debug, Clone, Copy, PartialEq, Eq, Structural)]
pub enum ConfigFile {
    /// The file could not be read (it is missing, say).
    Unreadable,
    /// The file was read but is not valid settings.
    Invalid,
    /// The file holds these settings.
    Parsed(Config),
}

/// The settings: those of the file when it holds valid ones; the defaults
/// (every flag off) when it is not valid; and the banner shown when there is
/// no file to read.
pub fn load_from(file: ConfigFile) -> (c: Config)
    ensures
        c == match file {
            ConfigFile::Unreadable => Config { show_banner: true },
            ConfigFile::Invalid => Config { show_banner: false },
            ConfigFile::Parsed(parsed) => parsed,
        },
{
    match file {
        ConfigFile::Unreadable => Config { show_banner: true },
        ConfigFile::Invalid => Config::default(),
        ConfigFile::Parsed(parsed) => parsed,
    }
}

} // verus!
