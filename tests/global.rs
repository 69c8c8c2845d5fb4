use lune::{LuneStandardGlobal, LuneStandardLibrary};

#[test]
fn global_names() {
    let names: Vec<&str> = LuneStandardGlobal::all().iter().map(|g| g.name()).collect();
    assert_eq!(names, vec!["_G", "print", "require", "_VERSION", "warn"]);
}

#[test]
fn global_from_str_ignores_case_and_space() {
    assert_eq!(LuneStandardGlobal::from_str("  PRINT \n"), Ok(LuneStandardGlobal::Print));
    assert_eq!(LuneStandardGlobal::from_str("_G"), Ok(LuneStandardGlobal::GTable));
    assert_eq!(LuneStandardGlobal::from_str("_version"), Ok(LuneStandardGlobal::Version));
    assert_eq!(LuneStandardGlobal::from_str("Require"), Ok(LuneStandardGlobal::Require));
    assert_eq!(LuneStandardGlobal::from_str("warn"), Ok(LuneStandardGlobal::Warn));
}

#[test]
fn global_from_str_unknown_name() {
    assert_eq!(
        LuneStandardGlobal::from_str(" Nope "),
        Err("Unknown standard global 'nope'\nValid globals are: _G, print, require, _VERSION, warn"
            .to_string())
    );
}

#[test]
fn library_names() {
    assert_eq!(LuneStandardLibrary::Fs.name(), "fs");
    assert_eq!(LuneStandardLibrary::Roblox.name(), "roblox");
    assert_eq!(LuneStandardLibrary::Stdio.name(), "stdio");
}

#[test]
fn global_from_str_trims_unicode_white_space() {
    assert_eq!(LuneStandardGlobal::from_str("\u{3000}print\u{00A0}"), Ok(LuneStandardGlobal::Print));
    assert_eq!(LuneStandardGlobal::from_str("\t_G\u{2028}"), Ok(LuneStandardGlobal::GTable));
    assert_eq!(
        LuneStandardGlobal::from_str(" \t "),
        Err("Unknown standard global ''\nValid globals are: _G, print, require, _VERSION, warn"
            .to_string())
    );
    assert_eq!(
        LuneStandardGlobal::from_str(" a b "),
        Err("Unknown standard global 'a b'\nValid globals are: _G, print, require, _VERSION, warn"
            .to_string())
    );
}
