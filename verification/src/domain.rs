//! The platform, the browser, and the level policies are written at.

use vstd::prelude::*;

verus! {

/// Whether policies go to the current user or to the whole machine.
#[derive(Clone, Copy, Debug, PartialEq, Eq, Structural)]
pub enum WriteLevel {
    User,
    Machine,
}

/// The operating system whose policy mechanism is used.
#[derive(Clone, Copy, Debug, PartialEq, Eq, Structural)]
pub enum PlatformKind {
    MacOs,
    Windows,
}

/// The browser whose policies are managed.
#[derive(Clone, Copy, Debug, PartialEq, Eq, Structural)]
pub enum Browser {
    Chrome,
    Brave,
}

impl Browser {
    /// The file name of the fetched template catalog for this browser.
    pub fn cache_file(self) -> (r: &'static str)
        ensures
            r@ == match self {
                Browser::Chrome => "catalog.remote-chrome.json"@,
                Browser::Brave => "catalog.remote-brave.json"@,
            },
    {
        match self {
            Browser::Chrome => "catalog.remote-chrome.json",
            Browser::Brave => "catalog.remote-brave.json",
        }
    }
}

} // verus!
