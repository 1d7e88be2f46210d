//! Platform configuration for an application, read from its project
//! configuration file; each platform has an optional section of its own.
use vstd::prelude::*;

verus! {

/// Platform specific behaviour of an application, one optional section per
/// platform.
#[derive(Clone, Copy, Debug)]
pub struct AppInfo {
    pub linux: Option<LinuxConfig>,
    pub windows: Option<WindowsConfig>,
    pub macos: Option<MacOSConfig>,
    pub android: Option<AndroidConfig>,
    pub ios: Option<IOSConfig>,
}

/// Linux specific configuration.
#[derive(Clone, Copy, Debug)]
pub struct LinuxConfig {}

/// Windows specific configuration.
#[derive(Clone, Copy, Debug)]
pub struct WindowsConfig {}

/// MacOS specific configuration.
#[derive(Clone, Copy, Debug)]
pub struct MacOSConfig {}

/// Android specific configuration.
#[derive(Clone, Copy, Debug)]
pub struct AndroidConfig {}

/// IOS specific configuration.
#[derive(Clone, Copy, Debug)]
pub struct IOSConfig {}

} // verus!
