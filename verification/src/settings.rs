//! Builder for the engine's application settings.
//!
//! Every field starts out unset; a setter records the caller's choice. The
//! unverified driver reads the fields back when it forwards them to the
//! native settings constructor.

use vstd::prelude::*;

verus! {

/// Application settings handed to the native engine at startup.
///
/// A `None` field means "keep the engine's default".
pub struct UltralightSettings {
    /// Whether shaders are loaded and compiled from the file system
    /// (from the `/shaders/` path relative to the file system path).
    pub loadShadersFromFileSystem: Option<bool>,
    /// Root path of the file system that holds the application's data.
    pub fileSystemPath: Option<String>,
}

impl UltralightSettings {
    /// Creates a settings record with every field unset.
    pub fn new() -> (s: UltralightSettings)
        ensures
            s.loadShadersFromFileSystem is None,
            s.fileSystemPath is None,
    {
        UltralightSettings {
            loadShadersFromFileSystem: None,
            fileSystemPath: None,
        }
    }

    /// Set whether or not we should load and compile shaders from the file
    /// system (eg, from the /shaders/ path, relative to file_system_path).
    pub fn loadShadersFromFileSystem(&mut self, flag: bool)
        ensures
            final(self).loadShadersFromFileSystem == Some(flag),
            final(self).fileSystemPath == old(self).fileSystemPath,
    {
        self.loadShadersFromFileSystem = Some(flag);
    }

    /// Set the root file path for our file system, you should set this to
    /// the relative path where all of your app data is.
    pub fn fileSystemPath(&mut self, path: String)
        ensures
            final(self).fileSystemPath == Some(path),
            final(self).loadShadersFromFileSystem == old(self).loadShadersFromFileSystem,
    {
        self.fileSystemPath = Some(path);
    }
}

} // verus!
