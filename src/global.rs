//! The standard globals that the host installs in every VM.
use vstd::prelude::*;

verus! {

/// A standard global provided by the host.
#[derive(Debug, Clone, Copy, Hash, PartialEq, Eq, Structural)]
pub enum LuneStandardGlobal {
    GTable,
    Print,
    Require,
    Version,
    Warn,
}

/// The name under which a global is installed.
pub open spec fn global_name(g: LuneStandardGlobal) -> Seq<char> {
    match g {
        LuneStandardGlobal::GTable => "_G"@,
        LuneStandardGlobal::Print => "print"@,
        LuneStandardGlobal::Require => "require"@,
        LuneStandardGlobal::Version => "_VERSION"@,
        LuneStandardGlobal::Warn => "warn"@,
    }
}

/// The global whose lower-cased name is `low`.
pub open spec fn global_by_lower_name(low: Seq<char>) -> Option<LuneStandardGlobal> {
    if low == "_g"@ {
        Some(LuneStandardGlobal::GTable)
    } else if low == "print"@ {
        Some(LuneStandardGlobal::Print)
    } else if low == "require"@ {
        Some(LuneStandardGlobal::Require)
    } else if low == "_version"@ {
        Some(LuneStandardGlobal::Version)
    } else if low == "warn"@ {
        Some(LuneStandardGlobal::Warn)
    } else {
        None
    }
}

/// A character with ASCII capitals made small.
pub open spec fn ascii_lower_char(c: char) -> char {
    if 'A' <= c <= 'Z' {
        ((c as u32) + 32) as char
    } else {
        c
    }
}

pub open spec fn ascii_lower(s: Seq<char>) -> Seq<char> {
    s.map_values(|c: char| ascii_lower_char(c))
}

/// The characters with the Unicode property White_Space, which is what
/// `char::is_whitespace` tests.
pub open spec fn is_white_space(c: char) -> bool {
    let u = c as u32;
    (0x09 <= u <= 0x0D) || u == 0x20 || u == 0x85 || u == 0xA0 || u == 0x1680 || (0x2000 <= u
        <= 0x200A) || u == 0x2028 || u == 0x2029 || u == 0x202F || u == 0x205F || u == 0x3000
}

pub open spec fn trimmed_start(s: Seq<char>) -> Seq<char>
    decreases s.len(),
{
    if s.len() > 0 && is_white_space(s[0]) {
        trimmed_start(s.skip(1))
    } else {
        s
    }
}

pub open spec fn trimmed_end(s: Seq<char>) -> Seq<char>
    decreases s.len(),
{
    if s.len() > 0 && is_white_space(s.last()) {
        trimmed_end(s.drop_last())
    } else {
        s
    }
}

/// A string without the white space at both ends.
pub open spec fn trimmed(s: Seq<char>) -> Seq<char> {
    trimmed_end(trimmed_start(s))
}

fn is_white_char(c: char) -> (r: bool)
    ensures
        r == is_white_space(c),
{
    let u = c as u32;
    (0x09 <= u && u <= 0x0D) || u == 0x20 || u == 0x85 || u == 0xA0 || u == 0x1680 || (0x2000 <= u
        && u <= 0x200A) || u == 0x2028 || u == 0x2029 || u == 0x202F || u == 0x205F || u == 0x3000
}

/// `s` without the white space at both ends.
fn trim_str(s: &str) -> (r: &str)
    ensures
        r@ == trimmed(s@),
{
    let len = s.unicode_len();
    let mut i: usize = 0;
    assert(s@.skip(0) =~= s@);
    while i < len && is_white_char(s.get_char(i))
        invariant
            len == s@.len(),
            i <= len,
            trimmed_start(s@) == trimmed_start(s@.skip(i as int)),
        decreases len - i,
    {
        assert(s@.skip(i as int).skip(1) =~= s@.skip(i as int + 1));
        i = i + 1;
    }
    let mut j: usize = len;
    assert(s@.skip(i as int) =~= s@.subrange(i as int, j as int));
    assert(trimmed_start(s@.skip(i as int)) == s@.skip(i as int));
    while j > i && is_white_char(s.get_char(j - 1))
        invariant
            len == s@.len(),
            i <= j <= len,
            trimmed(s@) == trimmed_end(s@.subrange(i as int, j as int)),
        decreases j,
    {
        assert(s@.subrange(i as int, j as int).drop_last() =~= s@.subrange(i as int, j - 1));
        j = j - 1;
    }
    s.substring_char(i, j)
}

/// Relies on str::to_ascii_lowercase, which maps `A`..=`Z` to `a`..=`z`
/// and keeps every other character.
#[verifier::external_body]
fn ascii_lowercase(s: &str) -> (r: String)
    ensures
        r@ == ascii_lower(s@),
{
    s.to_ascii_lowercase()
}

/// The message for an unknown global name (given lower-cased).
pub open spec fn unknown_global_message(low: Seq<char>) -> Seq<char> {
    "Unknown standard global '"@ + low + "'\nValid globals are: _G, print, require, _VERSION, warn"@
}

impl LuneStandardGlobal {
    /// All standard globals, in the order they are installed.
    pub fn all() -> (r: Vec<LuneStandardGlobal>)
        ensures
            r@ == seq![
                LuneStandardGlobal::GTable,
                LuneStandardGlobal::Print,
                LuneStandardGlobal::Require,
                LuneStandardGlobal::Version,
                LuneStandardGlobal::Warn,
            ],
    {
        let r = vec![
            LuneStandardGlobal::GTable,
            LuneStandardGlobal::Print,
            LuneStandardGlobal::Require,
            LuneStandardGlobal::Version,
            LuneStandardGlobal::Warn,
        ];
        assert(r@ =~= seq![
            LuneStandardGlobal::GTable,
            LuneStandardGlobal::Print,
            LuneStandardGlobal::Require,
            LuneStandardGlobal::Version,
            LuneStandardGlobal::Warn,
        ]);
        r
    }

    /// The name of the global, such as `_G` or `require`.
    pub fn name(&self) -> (r: &'static str)
        ensures
            r@ == global_name(*self),
    {
        match self {
            LuneStandardGlobal::GTable => "_G",
            LuneStandardGlobal::Print => "print",
            LuneStandardGlobal::Require => "require",
            LuneStandardGlobal::Version => "_VERSION",
            LuneStandardGlobal::Warn => "warn",
        }
    }

    /// The global named by `s`, ignoring surrounding white space and ASCII
    /// case; an unknown name gives a message that lists the valid ones.
    pub fn from_str(s: &str) -> (r: Result<LuneStandardGlobal, String>)
        ensures
            match global_by_lower_name(ascii_lower(trimmed(s@))) {
                Some(g) => r == Ok::<LuneStandardGlobal, String>(g),
                None => r is Err && r->Err_0@ == unknown_global_message(ascii_lower(trimmed(s@))),
            },
    {
        let low = ascii_lowercase(trim_str(s));
        if low == String::from_str("_g") {
            Ok(LuneStandardGlobal::GTable)
        } else if low == String::from_str("print") {
            Ok(LuneStandardGlobal::Print)
        } else if low == String::from_str("require") {
            Ok(LuneStandardGlobal::Require)
        } else if low == String::from_str("_version") {
            Ok(LuneStandardGlobal::Version)
        } else if low == String::from_str("warn") {
            Ok(LuneStandardGlobal::Warn)
        } else {
            let mut msg = String::from_str("Unknown standard global '");
            msg.append(low.as_str());
            msg.append("'\nValid globals are: _G, print, require, _VERSION, warn");
            Err(msg)
        }
    }
}

} // verus!
