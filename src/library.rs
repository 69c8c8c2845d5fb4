//! The standard libraries that scripts reach as `@lune/<name>`.
use vstd::prelude::*;

verus! {

/// A standard library module.
#[derive(Debug, Clone, Copy, PartialEq, Eq, Structural)]
pub enum LuneStandardLibrary {
    Fs,
    Luau,
    Net,
    Task,
    Process,
    Regex,
    Serde,
    Stdio,
    Roblox,
}

/// The name under which a library is registered.
pub open spec fn library_name(l: LuneStandardLibrary) -> Seq<char> {
    match l {
        LuneStandardLibrary::Fs => "fs"@,
        LuneStandardLibrary::Luau => "luau"@,
        LuneStandardLibrary::Net => "net"@,
        LuneStandardLibrary::Task => "task"@,
        LuneStandardLibrary::Process => "process"@,
        LuneStandardLibrary::Regex => "regex"@,
        LuneStandardLibrary::Serde => "serde"@,
        LuneStandardLibrary::Stdio => "stdio"@,
        LuneStandardLibrary::Roblox => "roblox"@,
    }
}

impl LuneStandardLibrary {
    /// The name of the library, as in `require("@lune/fs")`.
    pub fn name(&self) -> (r: &'static str)
        ensures
            r@ == library_name(*self),
    {
        match self {
            LuneStandardLibrary::Fs => "fs",
            LuneStandardLibrary::Luau => "luau",
            LuneStandardLibrary::Net => "net",
            LuneStandardLibrary::Task => "task",
            LuneStandardLibrary::Process => "process",
            LuneStandardLibrary::Regex => "regex",
            LuneStandardLibrary::Serde => "serde",
            LuneStandardLibrary::Stdio => "stdio",
            LuneStandardLibrary::Roblox => "roblox",
        }
    }
}

} // verus!
