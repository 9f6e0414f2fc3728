//! The foreign conjunction `!:`: which system facility `l!:r` names, with
//! what ranks, and which of them this interpreter refuses.

use vstd::prelude::*;

use crate::display::digit_char;
use crate::error::JError;
use crate::gerund::Ar;
use crate::text::{chars_of, string_of};

verus! {

/// What a foreign names.
#[derive(Clone, Copy, Debug, PartialEq, Eq)]
pub enum ForeignVerb {
    /// `0!:k`: run a script, with the options `k` spells.
    LoadScript(i64),
    ReadFile,
    FileSize,
    FileCwd,
    ShellOut,
    GetEnv,
    GetPid,
    DumpHex,
    IntBytes,
    NameStatus,
    NameNamelist,
    NameErase,
    OsType,
    LocalesSet,
    /// A facility J has that this interpreter does not yet: a nonce error
    /// when used.
    Unimplemented(&'static str),
    /// A facility this interpreter refuses: a security violation when used.
    SecurityViolation(&'static str),
}

/// The error using a foreign gives before it does anything: a security
/// violation for one this interpreter refuses, a nonce error for one it does
/// not yet have, none for the others.
pub open spec fn refusal_spec(v: ForeignVerb) -> Option<JError> {
    match v {
        ForeignVerb::SecurityViolation(_) => Some(JError::SecurityViolation),
        ForeignVerb::Unimplemented(_) => Some(JError::NonceError),
        _ => None,
    }
}

impl ForeignVerb {
    /// The error using this foreign gives at once, whatever its arguments,
    /// touching nothing: a security violation for a refused facility, a
    /// nonce error for one not yet here; `None` for a foreign that runs.
    pub fn refusal(&self) -> (r: Option<JError>)
        ensures
            r == refusal_spec(*self),
    {
        match self {
            ForeignVerb::SecurityViolation(_) => Some(JError::SecurityViolation),
            ForeignVerb::Unimplemented(_) => Some(JError::NonceError),
            _ => None,
        }
    }
}

/// The verb a foreign stands for, with its ranks (monad, dyad left, dyad
/// right; `None` is infinite).
#[derive(Clone, Copy, Debug, PartialEq, Eq)]
pub struct Foreign {
    pub ranks: (Option<u8>, Option<u8>, Option<u8>),
    pub verb: ForeignVerb,
}

/// A row of the table of foreigns: `major!:minor`.
#[derive(Clone, Copy, Debug, PartialEq, Eq)]
pub struct ForeignRow {
    pub major: i64,
    pub minor: i64,
    pub ranks: (Option<u8>, Option<u8>, Option<u8>),
    pub verb: ForeignVerb,
}

/// A foreign this interpreter does not know, by the family its major
/// number names.
#[derive(Clone, Copy, Debug, PartialEq, Eq)]
pub struct Unsupported {
    pub category: &'static str,
}

impl Unsupported {
    /// The error J reports for it.
    pub fn error(&self) -> (e: JError)
        ensures
            e == JError::NonceError,
    {
        JError::NonceError
    }
}

/// The family of foreigns a major number names, for the error on one that is
/// not in the table.
pub open spec fn category_spec(l: i64) -> &'static str {
    if l == 1 {
        "file"
    } else if l == 2 {
        "host"
    } else if l == 3 {
        "conversion"
    } else if l == 5 {
        "representation"
    } else if l == 6 {
        "time"
    } else if l == 8 {
        "format"
    } else if l == 9 {
        "global param"
    } else if l == 13 {
        "debug"
    } else if l == 15 {
        "dll"
    } else if l == 18 {
        "locales"
    } else if l == 128 {
        "misc"
    } else {
        "major"
    }
}

fn category(l: i64) -> (c: &'static str)
    ensures
        c == category_spec(l),
{
    if l == 1 {
        "file"
    } else if l == 2 {
        "host"
    } else if l == 3 {
        "conversion"
    } else if l == 5 {
        "representation"
    } else if l == 6 {
        "time"
    } else if l == 8 {
        "format"
    } else if l == 9 {
        "global param"
    } else if l == 13 {
        "debug"
    } else if l == 15 {
        "dll"
    } else if l == 18 {
        "locales"
    } else if l == 128 {
        "misc"
    } else {
        "major"
    }
}

/// The foreigns of the table, each with its major and minor number.
pub open spec fn foreign_table_spec() -> Seq<ForeignRow> {
    seq![
        ForeignRow { major: 1, minor: 0, ranks: (None, None, None), verb: ForeignVerb::Unimplemented("list dir") },
        ForeignRow { major: 1, minor: 1, ranks: (Some(0), None, None), verb: ForeignVerb::ReadFile },
        ForeignRow { major: 1, minor: 2, ranks: (None, None, None), verb: ForeignVerb::Unimplemented("write file") },
        ForeignRow { major: 1, minor: 3, ranks: (None, None, None), verb: ForeignVerb::Unimplemented("append file") },
        ForeignRow { major: 1, minor: 4, ranks: (Some(0), None, None), verb: ForeignVerb::FileSize },
        ForeignRow { major: 1, minor: 5, ranks: (None, None, None), verb: ForeignVerb::SecurityViolation("mkdir") },
        ForeignRow { major: 1, minor: 6, ranks: (None, None, None), verb: ForeignVerb::Unimplemented("file attributes") },
        ForeignRow { major: 1, minor: 7, ranks: (None, None, None), verb: ForeignVerb::Unimplemented("file permissions") },
        ForeignRow { major: 1, minor: 11, ranks: (None, None, None), verb: ForeignVerb::Unimplemented("offset read") },
        ForeignRow { major: 1, minor: 12, ranks: (None, None, None), verb: ForeignVerb::Unimplemented("offset write") },
        ForeignRow { major: 1, minor: 20, ranks: (None, None, None), verb: ForeignVerb::Unimplemented("list file handles") },
        ForeignRow { major: 1, minor: 21, ranks: (None, None, None), verb: ForeignVerb::Unimplemented("open file handle") },
        ForeignRow { major: 1, minor: 22, ranks: (None, None, None), verb: ForeignVerb::Unimplemented("close file handle") },
        ForeignRow { major: 1, minor: 30, ranks: (None, None, None), verb: ForeignVerb::Unimplemented("list file locks") },
        ForeignRow { major: 1, minor: 31, ranks: (None, None, None), verb: ForeignVerb::Unimplemented("lock file region") },
        ForeignRow { major: 1, minor: 32, ranks: (None, None, None), verb: ForeignVerb::Unimplemented("unlock file region") },
        ForeignRow { major: 1, minor: 43, ranks: (None, None, None), verb: ForeignVerb::FileCwd },
        ForeignRow { major: 1, minor: 44, ranks: (None, None, None), verb: ForeignVerb::Unimplemented("change dir") },
        ForeignRow { major: 1, minor: 46, ranks: (None, None, None), verb: ForeignVerb::Unimplemented("path of j.dll") },
        ForeignRow { major: 1, minor: 55, ranks: (None, None, None), verb: ForeignVerb::Unimplemented("erase directory") },
        ForeignRow { major: 2, minor: 0, ranks: (None, None, None), verb: ForeignVerb::ShellOut },
        ForeignRow { major: 2, minor: 1, ranks: (None, None, None), verb: ForeignVerb::SecurityViolation("shell out (forked)") },
        ForeignRow { major: 2, minor: 3, ranks: (None, None, None), verb: ForeignVerb::Unimplemented("terminate and wait") },
        ForeignRow { major: 2, minor: 5, ranks: (Some(0), None, None), verb: ForeignVerb::GetEnv },
        ForeignRow { major: 2, minor: 6, ranks: (None, None, None), verb: ForeignVerb::GetPid },
        ForeignRow { major: 2, minor: 7, ranks: (None, None, None), verb: ForeignVerb::Unimplemented("get cpu features") },
        ForeignRow { major: 2, minor: 8, ranks: (None, None, None), verb: ForeignVerb::Unimplemented("errno") },
        ForeignRow { major: 2, minor: 55, ranks: (None, None, None), verb: ForeignVerb::Unimplemented("terminate session") },
        ForeignRow { major: 3, minor: 0, ranks: (None, None, None), verb: ForeignVerb::Unimplemented("type") },
        ForeignRow { major: 3, minor: 1, ranks: (None, None, None), verb: ForeignVerb::Unimplemented("byte representation") },
        ForeignRow { major: 3, minor: 2, ranks: (None, None, None), verb: ForeignVerb::Unimplemented("byte to hex representation") },
        ForeignRow { major: 3, minor: 3, ranks: (None, None, None), verb: ForeignVerb::DumpHex },
        ForeignRow { major: 3, minor: 4, ranks: (None, None, None), verb: ForeignVerb::IntBytes },
        ForeignRow { major: 3, minor: 5, ranks: (None, None, None), verb: ForeignVerb::Unimplemented("floating point conversions") },
        ForeignRow { major: 3, minor: 6, ranks: (None, None, None), verb: ForeignVerb::Unimplemented("lock script") },
        ForeignRow { major: 3, minor: 10, ranks: (None, None, None), verb: ForeignVerb::Unimplemented("to base64") },
        ForeignRow { major: 3, minor: 11, ranks: (None, None, None), verb: ForeignVerb::Unimplemented("from base64") },
        ForeignRow { major: 3, minor: 12, ranks: (None, None, None), verb: ForeignVerb::Unimplemented("to/from uppercase") },
        ForeignRow { major: 4, minor: 0, ranks: (Some(0), None, None), verb: ForeignVerb::NameStatus },
        ForeignRow { major: 4, minor: 1, ranks: (None, None, None), verb: ForeignVerb::NameNamelist },
        ForeignRow { major: 4, minor: 3, ranks: (None, None, None), verb: ForeignVerb::Unimplemented("list loaded scripts") },
        ForeignRow { major: 4, minor: 4, ranks: (None, None, None), verb: ForeignVerb::Unimplemented("find loaded script") },
        ForeignRow { major: 4, minor: 5, ranks: (None, None, None), verb: ForeignVerb::Unimplemented("name change tracing") },
        ForeignRow { major: 4, minor: 6, ranks: (None, None, None), verb: ForeignVerb::Unimplemented("set current script name") },
        ForeignRow { major: 4, minor: 7, ranks: (None, None, None), verb: ForeignVerb::Unimplemented("set current script number") },
        ForeignRow { major: 4, minor: 8, ranks: (None, None, None), verb: ForeignVerb::Unimplemented("create cached reference") },
        ForeignRow { major: 4, minor: 55, ranks: (Some(0), None, None), verb: ForeignVerb::NameErase },
        ForeignRow { major: 5, minor: 0, ranks: (None, None, None), verb: ForeignVerb::Unimplemented("create from ar") },
        ForeignRow { major: 5, minor: 1, ranks: (None, None, None), verb: ForeignVerb::Unimplemented("create ar") },
        ForeignRow { major: 5, minor: 2, ranks: (None, None, None), verb: ForeignVerb::Unimplemented("ar boxed") },
        ForeignRow { major: 5, minor: 4, ranks: (None, None, None), verb: ForeignVerb::Unimplemented("ar tree") },
        ForeignRow { major: 5, minor: 5, ranks: (None, None, None), verb: ForeignVerb::Unimplemented("ar linear") },
        ForeignRow { major: 5, minor: 6, ranks: (None, None, None), verb: ForeignVerb::Unimplemented("ar linear (paren)") },
        ForeignRow { major: 5, minor: 7, ranks: (None, None, None), verb: ForeignVerb::Unimplemented("something to do with valences") },
        ForeignRow { major: 6, minor: 0, ranks: (None, None, None), verb: ForeignVerb::Unimplemented("time current") },
        ForeignRow { major: 6, minor: 1, ranks: (None, None, None), verb: ForeignVerb::Unimplemented("time session") },
        ForeignRow { major: 6, minor: 2, ranks: (None, None, None), verb: ForeignVerb::Unimplemented("time sentence") },
        ForeignRow { major: 6, minor: 3, ranks: (None, None, None), verb: ForeignVerb::Unimplemented("time delay") },
        ForeignRow { major: 6, minor: 4, ranks: (None, None, None), verb: ForeignVerb::Unimplemented("time pm count calls") },
        ForeignRow { major: 6, minor: 8, ranks: (None, None, None), verb: ForeignVerb::Unimplemented("time pm clock frequency") },
        ForeignRow { major: 6, minor: 9, ranks: (None, None, None), verb: ForeignVerb::Unimplemented("time pm clock counter") },
        ForeignRow { major: 6, minor: 10, ranks: (None, None, None), verb: ForeignVerb::Unimplemented("time pm data") },
        ForeignRow { major: 6, minor: 11, ranks: (None, None, None), verb: ForeignVerb::Unimplemented("time pm unpack") },
        ForeignRow { major: 6, minor: 12, ranks: (None, None, None), verb: ForeignVerb::Unimplemented("time pm add") },
        ForeignRow { major: 6, minor: 13, ranks: (None, None, None), verb: ForeignVerb::Unimplemented("time pm stats") },
        ForeignRow { major: 6, minor: 14, ranks: (None, None, None), verb: ForeignVerb::Unimplemented("time to nano") },
        ForeignRow { major: 6, minor: 15, ranks: (None, None, None), verb: ForeignVerb::Unimplemented("time to expanded") },
        ForeignRow { major: 6, minor: 16, ranks: (None, None, None), verb: ForeignVerb::Unimplemented("time to 8601") },
        ForeignRow { major: 6, minor: 17, ranks: (None, None, None), verb: ForeignVerb::Unimplemented("time to 8601 nano") },
        ForeignRow { major: 6, minor: 18, ranks: (None, None, None), verb: ForeignVerb::Unimplemented("time string to nano") },
        ForeignRow { major: 7, minor: 0, ranks: (None, None, None), verb: ForeignVerb::Unimplemented("space use") },
        ForeignRow { major: 7, minor: 1, ranks: (None, None, None), verb: ForeignVerb::Unimplemented("space memory use") },
        ForeignRow { major: 7, minor: 2, ranks: (None, None, None), verb: ForeignVerb::Unimplemented("space measure") },
        ForeignRow { major: 7, minor: 3, ranks: (None, None, None), verb: ForeignVerb::Unimplemented("space free") },
        ForeignRow { major: 7, minor: 5, ranks: (None, None, None), verb: ForeignVerb::Unimplemented("space for object") },
        ForeignRow { major: 7, minor: 6, ranks: (None, None, None), verb: ForeignVerb::Unimplemented("space for locale") },
        ForeignRow { major: 7, minor: 7, ranks: (None, None, None), verb: ForeignVerb::Unimplemented("space by os") },
        ForeignRow { major: 7, minor: 8, ranks: (None, None, None), verb: ForeignVerb::Unimplemented("space for locale all") },
        ForeignRow { major: 9, minor: 12, ranks: (None, None, None), verb: ForeignVerb::OsType },
        ForeignRow { major: 13, minor: 8, ranks: (None, None, None), verb: ForeignVerb::Unimplemented("signal error") },
        ForeignRow { major: 15, minor: 0, ranks: (None, None, None), verb: ForeignVerb::Unimplemented("call dll") },
        ForeignRow { major: 15, minor: 10, ranks: (None, None, None), verb: ForeignVerb::Unimplemented("dll error code") },
        ForeignRow { major: 18, minor: 3, ranks: (None, None, None), verb: ForeignVerb::Unimplemented("create locale") },
        ForeignRow { major: 18, minor: 4, ranks: (None, None, None), verb: ForeignVerb::LocalesSet },
        ForeignRow { major: 128, minor: 2, ranks: (None, None, None), verb: ForeignVerb::Unimplemented("eval and apply") },
    ]
}

/// The table of foreigns, in the order they are matched.
fn foreign_table() -> (v: Vec<ForeignRow>)
    ensures
        v@ == foreign_table_spec(),
{
    let v = vec![
        ForeignRow { major: 1, minor: 0, ranks: (None, None, None), verb: ForeignVerb::Unimplemented("list dir") },
        ForeignRow { major: 1, minor: 1, ranks: (Some(0), None, None), verb: ForeignVerb::ReadFile },
        ForeignRow { major: 1, minor: 2, ranks: (None, None, None), verb: ForeignVerb::Unimplemented("write file") },
        ForeignRow { major: 1, minor: 3, ranks: (None, None, None), verb: ForeignVerb::Unimplemented("append file") },
        ForeignRow { major: 1, minor: 4, ranks: (Some(0), None, None), verb: ForeignVerb::FileSize },
        ForeignRow { major: 1, minor: 5, ranks: (None, None, None), verb: ForeignVerb::SecurityViolation("mkdir") },
        ForeignRow { major: 1, minor: 6, ranks: (None, None, None), verb: ForeignVerb::Unimplemented("file attributes") },
        ForeignRow { major: 1, minor: 7, ranks: (None, None, None), verb: ForeignVerb::Unimplemented("file permissions") },
        ForeignRow { major: 1, minor: 11, ranks: (None, None, None), verb: ForeignVerb::Unimplemented("offset read") },
        ForeignRow { major: 1, minor: 12, ranks: (None, None, None), verb: ForeignVerb::Unimplemented("offset write") },
        ForeignRow { major: 1, minor: 20, ranks: (None, None, None), verb: ForeignVerb::Unimplemented("list file handles") },
        ForeignRow { major: 1, minor: 21, ranks: (None, None, None), verb: ForeignVerb::Unimplemented("open file handle") },
        ForeignRow { major: 1, minor: 22, ranks: (None, None, None), verb: ForeignVerb::Unimplemented("close file handle") },
        ForeignRow { major: 1, minor: 30, ranks: (None, None, None), verb: ForeignVerb::Unimplemented("list file locks") },
        ForeignRow { major: 1, minor: 31, ranks: (None, None, None), verb: ForeignVerb::Unimplemented("lock file region") },
        ForeignRow { major: 1, minor: 32, ranks: (None, None, None), verb: ForeignVerb::Unimplemented("unlock file region") },
        ForeignRow { major: 1, minor: 43, ranks: (None, None, None), verb: ForeignVerb::FileCwd },
        ForeignRow { major: 1, minor: 44, ranks: (None, None, None), verb: ForeignVerb::Unimplemented("change dir") },
        ForeignRow { major: 1, minor: 46, ranks: (None, None, None), verb: ForeignVerb::Unimplemented("path of j.dll") },
        ForeignRow { major: 1, minor: 55, ranks: (None, None, None), verb: ForeignVerb::Unimplemented("erase directory") },
        ForeignRow { major: 2, minor: 0, ranks: (None, None, None), verb: ForeignVerb::ShellOut },
        ForeignRow { major: 2, minor: 1, ranks: (None, None, None), verb: ForeignVerb::SecurityViolation("shell out (forked)") },
        ForeignRow { major: 2, minor: 3, ranks: (None, None, None), verb: ForeignVerb::Unimplemented("terminate and wait") },
        ForeignRow { major: 2, minor: 5, ranks: (Some(0), None, None), verb: ForeignVerb::GetEnv },
        ForeignRow { major: 2, minor: 6, ranks: (None, None, None), verb: ForeignVerb::GetPid },
        ForeignRow { major: 2, minor: 7, ranks: (None, None, None), verb: ForeignVerb::Unimplemented("get cpu features") },
        ForeignRow { major: 2, minor: 8, ranks: (None, None, None), verb: ForeignVerb::Unimplemented("errno") },
        ForeignRow { major: 2, minor: 55, ranks: (None, None, None), verb: ForeignVerb::Unimplemented("terminate session") },
        ForeignRow { major: 3, minor: 0, ranks: (None, None, None), verb: ForeignVerb::Unimplemented("type") },
        ForeignRow { major: 3, minor: 1, ranks: (None, None, None), verb: ForeignVerb::Unimplemented("byte representation") },
        ForeignRow { major: 3, minor: 2, ranks: (None, None, None), verb: ForeignVerb::Unimplemented("byte to hex representation") },
        ForeignRow { major: 3, minor: 3, ranks: (None, None, None), verb: ForeignVerb::DumpHex },
        ForeignRow { major: 3, minor: 4, ranks: (None, None, None), verb: ForeignVerb::IntBytes },
        ForeignRow { major: 3, minor: 5, ranks: (None, None, None), verb: ForeignVerb::Unimplemented("floating point conversions") },
        ForeignRow { major: 3, minor: 6, ranks: (None, None, None), verb: ForeignVerb::Unimplemented("lock script") },
        ForeignRow { major: 3, minor: 10, ranks: (None, None, None), verb: ForeignVerb::Unimplemented("to base64") },
        ForeignRow { major: 3, minor: 11, ranks: (None, None, None), verb: ForeignVerb::Unimplemented("from base64") },
        ForeignRow { major: 3, minor: 12, ranks: (None, None, None), verb: ForeignVerb::Unimplemented("to/from uppercase") },
        ForeignRow { major: 4, minor: 0, ranks: (Some(0), None, None), verb: ForeignVerb::NameStatus },
        ForeignRow { major: 4, minor: 1, ranks: (None, None, None), verb: ForeignVerb::NameNamelist },
        ForeignRow { major: 4, minor: 3, ranks: (None, None, None), verb: ForeignVerb::Unimplemented("list loaded scripts") },
        ForeignRow { major: 4, minor: 4, ranks: (None, None, None), verb: ForeignVerb::Unimplemented("find loaded script") },
        ForeignRow { major: 4, minor: 5, ranks: (None, None, None), verb: ForeignVerb::Unimplemented("name change tracing") },
        ForeignRow { major: 4, minor: 6, ranks: (None, None, None), verb: ForeignVerb::Unimplemented("set current script name") },
        ForeignRow { major: 4, minor: 7, ranks: (None, None, None), verb: ForeignVerb::Unimplemented("set current script number") },
        ForeignRow { major: 4, minor: 8, ranks: (None, None, None), verb: ForeignVerb::Unimplemented("create cached reference") },
        ForeignRow { major: 4, minor: 55, ranks: (Some(0), None, None), verb: ForeignVerb::NameErase },
        ForeignRow { major: 5, minor: 0, ranks: (None, None, None), verb: ForeignVerb::Unimplemented("create from ar") },
        ForeignRow { major: 5, minor: 1, ranks: (None, None, None), verb: ForeignVerb::Unimplemented("create ar") },
        ForeignRow { major: 5, minor: 2, ranks: (None, None, None), verb: ForeignVerb::Unimplemented("ar boxed") },
        ForeignRow { major: 5, minor: 4, ranks: (None, None, None), verb: ForeignVerb::Unimplemented("ar tree") },
        ForeignRow { major: 5, minor: 5, ranks: (None, None, None), verb: ForeignVerb::Unimplemented("ar linear") },
        ForeignRow { major: 5, minor: 6, ranks: (None, None, None), verb: ForeignVerb::Unimplemented("ar linear (paren)") },
        ForeignRow { major: 5, minor: 7, ranks: (None, None, None), verb: ForeignVerb::Unimplemented("something to do with valences") },
        ForeignRow { major: 6, minor: 0, ranks: (None, None, None), verb: ForeignVerb::Unimplemented("time current") },
        ForeignRow { major: 6, minor: 1, ranks: (None, None, None), verb: ForeignVerb::Unimplemented("time session") },
        ForeignRow { major: 6, minor: 2, ranks: (None, None, None), verb: ForeignVerb::Unimplemented("time sentence") },
        ForeignRow { major: 6, minor: 3, ranks: (None, None, None), verb: ForeignVerb::Unimplemented("time delay") },
        ForeignRow { major: 6, minor: 4, ranks: (None, None, None), verb: ForeignVerb::Unimplemented("time pm count calls") },
        ForeignRow { major: 6, minor: 8, ranks: (None, None, None), verb: ForeignVerb::Unimplemented("time pm clock frequency") },
        ForeignRow { major: 6, minor: 9, ranks: (None, None, None), verb: ForeignVerb::Unimplemented("time pm clock counter") },
        ForeignRow { major: 6, minor: 10, ranks: (None, None, None), verb: ForeignVerb::Unimplemented("time pm data") },
        ForeignRow { major: 6, minor: 11, ranks: (None, None, None), verb: ForeignVerb::Unimplemented("time pm unpack") },
        ForeignRow { major: 6, minor: 12, ranks: (None, None, None), verb: ForeignVerb::Unimplemented("time pm add") },
        ForeignRow { major: 6, minor: 13, ranks: (None, None, None), verb: ForeignVerb::Unimplemented("time pm stats") },
        ForeignRow { major: 6, minor: 14, ranks: (None, None, None), verb: ForeignVerb::Unimplemented("time to nano") },
        ForeignRow { major: 6, minor: 15, ranks: (None, None, None), verb: ForeignVerb::Unimplemented("time to expanded") },
        ForeignRow { major: 6, minor: 16, ranks: (None, None, None), verb: ForeignVerb::Unimplemented("time to 8601") },
        ForeignRow { major: 6, minor: 17, ranks: (None, None, None), verb: ForeignVerb::Unimplemented("time to 8601 nano") },
        ForeignRow { major: 6, minor: 18, ranks: (None, None, None), verb: ForeignVerb::Unimplemented("time string to nano") },
        ForeignRow { major: 7, minor: 0, ranks: (None, None, None), verb: ForeignVerb::Unimplemented("space use") },
        ForeignRow { major: 7, minor: 1, ranks: (None, None, None), verb: ForeignVerb::Unimplemented("space memory use") },
        ForeignRow { major: 7, minor: 2, ranks: (None, None, None), verb: ForeignVerb::Unimplemented("space measure") },
        ForeignRow { major: 7, minor: 3, ranks: (None, None, None), verb: ForeignVerb::Unimplemented("space free") },
        ForeignRow { major: 7, minor: 5, ranks: (None, None, None), verb: ForeignVerb::Unimplemented("space for object") },
        ForeignRow { major: 7, minor: 6, ranks: (None, None, None), verb: ForeignVerb::Unimplemented("space for locale") },
        ForeignRow { major: 7, minor: 7, ranks: (None, None, None), verb: ForeignVerb::Unimplemented("space by os") },
        ForeignRow { major: 7, minor: 8, ranks: (None, None, None), verb: ForeignVerb::Unimplemented("space for locale all") },
        ForeignRow { major: 9, minor: 12, ranks: (None, None, None), verb: ForeignVerb::OsType },
        ForeignRow { major: 13, minor: 8, ranks: (None, None, None), verb: ForeignVerb::Unimplemented("signal error") },
        ForeignRow { major: 15, minor: 0, ranks: (None, None, None), verb: ForeignVerb::Unimplemented("call dll") },
        ForeignRow { major: 15, minor: 10, ranks: (None, None, None), verb: ForeignVerb::Unimplemented("dll error code") },
        ForeignRow { major: 18, minor: 3, ranks: (None, None, None), verb: ForeignVerb::Unimplemented("create locale") },
        ForeignRow { major: 18, minor: 4, ranks: (None, None, None), verb: ForeignVerb::LocalesSet },
        ForeignRow { major: 128, minor: 2, ranks: (None, None, None), verb: ForeignVerb::Unimplemented("eval and apply") },
    ];
    assert(v@ =~= foreign_table_spec());
    v
}

/// The first row of `table` for `l!:r`, if any.
pub open spec fn find_foreign(table: Seq<ForeignRow>, l: i64, r: i64) -> Option<ForeignRow>
    decreases table.len(),
{
    if table.len() == 0 {
        None
    } else if table[0].major == l && table[0].minor == r {
        Some(table[0])
    } else {
        find_foreign(table.drop_first(), l, r)
    }
}

/// What `l!:r` stands for: `0!:k` runs a script with options `k`; the other
/// known foreigns come from the table; any other is refused, by family.
pub open spec fn foreign_spec(l: i64, r: i64) -> Result<Foreign, Unsupported> {
    if l == 0 {
        Ok(Foreign { ranks: (None, None, None), verb: ForeignVerb::LoadScript(r) })
    } else {
        match find_foreign(foreign_table_spec(), l, r) {
            Some(row) => Ok(Foreign { ranks: row.ranks, verb: row.verb }),
            None => Err(Unsupported { category: category_spec(l) }),
        }
    }
}

/// The verb the foreign `l!:r` stands for.
pub fn foreign(l: i64, r: i64) -> (f: Result<Foreign, Unsupported>)
    ensures
        f == foreign_spec(l, r),
{
    if l == 0 {
        return Ok(Foreign { ranks: (None, None, None), verb: ForeignVerb::LoadScript(r) });
    }
    let table = foreign_table();
    let mut i: usize = 0;
    assert(table@.skip(0) =~= table@);
    while i < table.len()
        invariant
            table@ == foreign_table_spec(),
            i <= table@.len(),
            find_foreign(table@, l, r) == find_foreign(table@.skip(i as int), l, r),
        decreases table@.len() - i,
    {
        let row = table[i];
        assert(table@.skip(i as int).drop_first() =~= table@.skip(i + 1));
        if row.major == l && row.minor == r {
            return Ok(Foreign { ranks: row.ranks, verb: row.verb });
        }
        i += 1;
    }
    Err(Unsupported { category: category(l) })
}

/// Why `0!:k` refuses the options `k` spells.
#[derive(Clone, Copy, Debug, PartialEq, Eq, Structural)]
pub enum ScriptOptionError {
    Display,
    Tautologies,
    TautologiesWithResult,
    UnrecognisedDisplay,
    UnrecognisedErr,
    FromNoun,
    UnrecognisedSrc,
}

/// What the interpreter says of a refused script option.
pub open spec fn script_option_message(e: ScriptOptionError) -> Seq<char> {
    match e {
        ScriptOptionError::Display => "display"@,
        ScriptOptionError::Tautologies => "tautologies"@,
        ScriptOptionError::TautologiesWithResult => "tautologies with result"@,
        ScriptOptionError::UnrecognisedDisplay => "unrecognised 'display' option"@,
        ScriptOptionError::UnrecognisedErr => "unrecognised 'err' option"@,
        ScriptOptionError::FromNoun => "from noun"@,
        ScriptOptionError::UnrecognisedSrc => "unrecognised 'err' option"@,
    }
}

impl ScriptOptionError {
    /// What the interpreter says of it.
    pub fn message(&self) -> (m: &'static str)
        ensures
            m@ == script_option_message(*self),
    {
        match self {
            ScriptOptionError::Display => "display",
            ScriptOptionError::Tautologies => "tautologies",
            ScriptOptionError::TautologiesWithResult => "tautologies with result",
            ScriptOptionError::UnrecognisedDisplay => "unrecognised 'display' option",
            ScriptOptionError::UnrecognisedErr => "unrecognised 'err' option",
            ScriptOptionError::FromNoun => "from noun",
            ScriptOptionError::UnrecognisedSrc => "unrecognised 'err' option",
        }
    }

    /// The error J reports for it.
    pub fn error(&self) -> (e: JError)
        ensures
            e == JError::NonceError,
    {
        JError::NonceError
    }
}

/// `k` written with at least three characters, zero-padded after any sign.
pub open spec fn padded3(k: int) -> Seq<char> {
    if k >= 0 {
        seq![digit_char(k / 100), digit_char((k / 10) % 10), digit_char(k % 10)]
    } else {
        seq!['-', digit_char((-k) / 10), digit_char((-k) % 10)]
    }
}

/// The options of `0!:k`, read from `k`'s three characters: the last says
/// what to display (only `0`, nothing, is supported), the middle whether to
/// stop at the first error (`0`) or go on (`1`), the first where the script
/// comes from (only `0`, a file, is supported).  Ok holds whether to stop at
/// the first error.
pub open spec fn script_options_spec(k: int) -> Result<bool, ScriptOptionError> {
    let d = padded3(k);
    if d[2] == '1' {
        Err(ScriptOptionError::Display)
    } else if d[2] == '2' {
        Err(ScriptOptionError::Tautologies)
    } else if d[2] == '3' {
        Err(ScriptOptionError::TautologiesWithResult)
    } else if d[2] != '0' {
        Err(ScriptOptionError::UnrecognisedDisplay)
    } else if d[1] != '0' && d[1] != '1' {
        Err(ScriptOptionError::UnrecognisedErr)
    } else if d[0] == '1' {
        Err(ScriptOptionError::FromNoun)
    } else if d[0] != '0' {
        Err(ScriptOptionError::UnrecognisedSrc)
    } else {
        Ok(d[1] == '0')
    }
}

fn digit_of(d: i64) -> (c: char)
    requires
        0 <= d < 10,
    ensures
        c == digit_char(d as int),
{
    if d == 0 {
        '0'
    } else if d == 1 {
        '1'
    } else if d == 2 {
        '2'
    } else if d == 3 {
        '3'
    } else if d == 4 {
        '4'
    } else if d == 5 {
        '5'
    } else if d == 6 {
        '6'
    } else if d == 7 {
        '7'
    } else if d == 8 {
        '8'
    } else {
        '9'
    }
}

/// The options of the script runner `0!:k`: whether to stop at the first
/// error.  `k` is written with three characters, so it lies in `-99..=999`.
pub fn script_options(k: i64) -> (r: Result<bool, ScriptOptionError>)
    requires
        -99 <= k <= 999,
    ensures
        r == script_options_spec(k as int),
{
    let (src, err, display) = if k >= 0 {
        (digit_of(k / 100), digit_of((k / 10) % 10), digit_of(k % 10))
    } else {
        ('-', digit_of((-k) / 10), digit_of((-k) % 10))
    };
    assert(padded3(k as int) == seq![src, err, display]);
    if display == '1' {
        return Err(ScriptOptionError::Display);
    } else if display == '2' {
        return Err(ScriptOptionError::Tautologies);
    } else if display == '3' {
        return Err(ScriptOptionError::TautologiesWithResult);
    } else if display != '0' {
        return Err(ScriptOptionError::UnrecognisedDisplay);
    }
    let break_on_error = if err == '0' {
        true
    } else if err == '1' {
        false
    } else {
        return Err(ScriptOptionError::UnrecognisedErr);
    };
    if src == '1' {
        return Err(ScriptOptionError::FromNoun);
    } else if src != '0' {
        return Err(ScriptOptionError::UnrecognisedSrc);
    }
    Ok(break_on_error)
}

/// A lower-case hexadecimal digit.
pub open spec fn hex_digit(d: int) -> char {
    if d < 10 {
        digit_char(d)
    } else {
        (d - 10 + ('a' as int)) as char
    }
}

/// The hexadecimal digits of the `n` low bytes of `u`, the lowest byte
/// first, each byte high digit first.
pub open spec fn hex_bytes_le(u: nat, n: nat) -> Seq<char>
    decreases n,
{
    if n == 0 {
        Seq::empty()
    } else {
        seq![hex_digit(((u % 256) / 16) as int), hex_digit((u % 16) as int)] + hex_bytes_le(u / 256, (n - 1) as nat)
    }
}

fn hex_digit_exec(d: u64) -> (c: char)
    requires
        d < 16,
    ensures
        c == hex_digit(d as int),
{
    if d < 10 {
        digit_of(d as i64)
    } else if d == 10 {
        'a'
    } else if d == 11 {
        'b'
    } else if d == 12 {
        'c'
    } else if d == 13 {
        'd'
    } else if d == 14 {
        'e'
    } else {
        'f'
    }
}

/// One word of a `3!:3` dump: the sixteen hexadecimal digits that
/// `{:016x}` writes for the word's big-endian form on a little-endian
/// machine, which are its bytes, lowest first.
pub fn hex_word(x: i64) -> (s: String)
    ensures
        s@ == hex_bytes_le((x as u64) as nat, 8),
{
    #[verifier::truncate]
    let u0 = x as u64;
    let mut u = u0;
    let mut out: Vec<char> = Vec::new();
    let mut k: usize = 0;
    while k < 8
        invariant
            k <= 8,
            hex_bytes_le(u0 as nat, 8) == out@ + hex_bytes_le(u as nat, (8 - k) as nat),
        decreases 8 - k,
    {
        let b = u % 256;
        let ghost before = out@;
        out.push(hex_digit_exec(b / 16));
        out.push(hex_digit_exec(u % 16));
        assert(b / 16 == (u % 256) / 16);
        assert((u % 256) % 16 == u % 16) by (nonlinear_arith);
        assert(out@ =~= before + seq![hex_digit(((u % 256) / 16) as int), hex_digit((u % 16) as int)]);
        u = u / 256;
        k += 1;
    }
    assert(out@ + Seq::<char>::empty() =~= out@);
    string_of(out.as_slice())
}

/// The words of a `3!:3` dump of an integer array of the given shape and
/// elements: a header (the type, the element count, the rank), then the
/// shape, then the elements.  A count or dimension beyond `i64` cannot be
/// written.
pub open spec fn dump_words_spec(shape: Seq<usize>, data: Seq<i64>) -> Option<Seq<i64>> {
    if data.len() > i64::MAX || shape.len() > i64::MAX || exists|k: int| 0 <= k < shape.len() && shape[k] > i64::MAX {
        None
    } else {
        Some(seq![0xe3i64, 4i64, data.len() as i64, shape.len() as i64] + shape.map_values(|d: usize| d as i64) + data)
    }
}

/// The words of a `3!:3` dump of an integer array, or an error when a count
/// does not fit an `i64`.
pub fn dump_hex_words(shape: &[usize], data: &[i64]) -> (r: Result<Vec<i64>, JError>)
    ensures
        r matches Ok(v) ==> dump_words_spec(shape@, data@) == Some(v@),
        r matches Err(e) ==> dump_words_spec(shape@, data@) is None && e == JError::LimitError,
{
    if data.len() as u64 > 9223372036854775807u64 || shape.len() as u64 > 9223372036854775807u64 {
        return Err(JError::LimitError);
    }
    let mut out: Vec<i64> = Vec::new();
    out.push(0xe3);
    out.push(4);
    out.push(data.len() as i64);
    out.push(shape.len() as i64);
    let ghost head = out@;
    let mut i: usize = 0;
    while i < shape.len()
        invariant
            i <= shape@.len(),
            out@ == head + shape@.take(i as int).map_values(|d: usize| d as i64),
            forall|k: int| 0 <= k < i ==> shape@[k] <= i64::MAX,
        decreases shape@.len() - i,
    {
        let d = shape[i];
        if d as u64 > 9223372036854775807u64 {
            return Err(JError::LimitError);
        }
        out.push(d as i64);
        i += 1;
        assert(out@ =~= head + shape@.take(i as int).map_values(|d: usize| d as i64));
    }
    assert(shape@.take(shape@.len() as int) =~= shape@);
    let ghost mid = out@;
    let mut j: usize = 0;
    while j < data.len()
        invariant
            j <= data@.len(),
            out@ == mid + data@.take(j as int),
        decreases data@.len() - j,
    {
        out.push(data[j]);
        j += 1;
        assert(out@ =~= mid + data@.take(j as int));
    }
    assert(data@.take(data@.len() as int) =~= data@);
    Ok(out)
}

/// `2 (3!:4) y`: the character whose code is `y`'s low byte, padded with
/// three NULs.  Any other mode is not supported.
pub fn int_bytes(mode: i64, y: i64) -> (r: Result<Vec<char>, JError>)
    ensures
        mode != 2 ==> r == Err::<Vec<char>, JError>(JError::NonceError),
        mode == 2 ==> (r matches Ok(v) && v@ == seq![((y as u8) as char), '\0', '\0', '\0']),
{
    if mode != 2 {
        return Err(JError::NonceError);
    }
    #[verifier::truncate]
    let b = y as u8;
    let v = vec![b as char, '\0', '\0', '\0'];
    Ok(v)
}

/// The number `9!:12` gives for the operating system named `os` (as Rust
/// names it): 5 for Linux, 6 for Windows, -1 for any other.
pub fn os_type_code(os: &str) -> (r: i64)
    ensures
        r == (if os@ == "linux"@ { 5i64 } else if os@ == "windows"@ { 6i64 } else { -1i64 }),
{
    proof {
        reveal_strlit("linux");
        reveal_strlit("windows");
    }
    let cs = chars_of(os);
    if cs.len() == 5 && cs[0] == 'l' && cs[1] == 'i' && cs[2] == 'n' && cs[3] == 'u' && cs[4] == 'x' {
        assert(os@ =~= "linux"@);
        5
    } else if cs.len() == 7 && cs[0] == 'w' && cs[1] == 'i' && cs[2] == 'n' && cs[3] == 'd' && cs[4] == 'o'
        && cs[5] == 'w' && cs[6] == 's' {
        assert(os@ =~= "windows"@);
        6
    } else {
        assert(os@ != "linux"@);
        assert(os@ != "windows"@);
        -1
    }
}

/// What `2!:0` (shelling out) gives: only `uname` on Linux is answered,
/// with `Linux`; anything else is a nonce error, as is a noun that is not
/// a string.
pub fn shell_out(command: Option<&[char]>, linux: bool) -> (r: Result<String, JError>)
    ensures
        match command {
            Some(c) if linux && c@ == "uname"@ => r matches Ok(s) && s@ == "Linux"@,
            _ => r == Err::<String, JError>(JError::NonceError),
        },
{
    proof {
        reveal_strlit("uname");
    }
    match command {
        Some(c) => {
            if linux && c.len() == 5 && c[0] == 'u' && c[1] == 'n' && c[2] == 'a' && c[3] == 'm' && c[4] == 'e' {
                assert(c@ =~= "uname"@);
                Ok(String::from_str("Linux"))
            } else {
                assert(!(linux && c@ == "uname"@));
                Err(JError::NonceError)
            }
        },
        None => Err(JError::NonceError),
    }
}

/// The strings a boxed argument of a foreign lists: a box atom or list
/// whose items are each a character atom or list; anything else is a nonce
/// error.
pub open spec fn string_list_spec(rank: nat, items: Seq<Ar>) -> Option<Seq<Seq<char>>> {
    if rank > 1 || exists|i: int| 0 <= i < items.len() && !(#[trigger] items[i] matches Ar::Chars(r, _) && r <= 1) {
        None
    } else {
        Some(Seq::new(items.len(), |i: int| match items[i] {
            Ar::Chars(_, cs) => cs@,
            _ => Seq::empty(),
        }))
    }
}

/// The strings a boxed argument lists (`rank` is the box array's).
pub fn arg_to_string_list(rank: usize, items: &Vec<Ar>) -> (r: Result<Vec<String>, JError>)
    ensures
        match string_list_spec(rank as nat, items@) {
            Some(ss) => r matches Ok(v) && v@.map_values(|s: String| s@) == ss,
            None => r == Err::<Vec<String>, JError>(JError::NonceError),
        },
{
    if rank > 1 {
        return Err(JError::NonceError);
    }
    let ghost want = Seq::new(items@.len(), |i: int| match items@[i] {
        Ar::Chars(_, cs) => cs@,
        _ => Seq::<char>::empty(),
    });
    let mut out: Vec<String> = Vec::new();
    let mut i: usize = 0;
    while i < items.len()
        invariant
            rank <= 1,
            i <= items@.len(),
            want == Seq::new(items@.len(), |i: int| match items@[i] {
                Ar::Chars(_, cs) => cs@,
                _ => Seq::<char>::empty(),
            }),
            forall|k: int| 0 <= k < i ==> (#[trigger] items@[k] matches Ar::Chars(r, _) && r <= 1),
            out@.map_values(|s: String| s@) == want.take(i as int),
        decreases items@.len() - i,
    {
        match &items[i] {
            Ar::Chars(r, cs) => {
                if *r > 1 {
                    return Err(JError::NonceError);
                }
                let ghost before = out@.map_values(|s: String| s@);
                out.push(string_of(cs.as_slice()));
                assert(out@.map_values(|s: String| s@) =~= before.push(cs@));
                assert(want.take(i + 1) =~= want.take(i as int).push(want[i as int]));
            },
            _ => {
                return Err(JError::NonceError);
            },
        }
        i += 1;
    }
    assert(want.take(items@.len() as int) =~= want);
    Ok(out)
}

/// The one string a boxed argument holds: exactly one item, as for
/// [`arg_to_string_list`], or a nonce error.
pub fn arg_to_string(rank: usize, items: &Vec<Ar>) -> (r: Result<String, JError>)
    ensures
        items@.len() != 1 ==> r == Err::<String, JError>(JError::NonceError),
        items@.len() == 1 ==> match string_list_spec(rank as nat, items@) {
            Some(ss) => r matches Ok(s) && s@ == ss[0],
            None => r == Err::<String, JError>(JError::NonceError),
        },
{
    if items.len() != 1 {
        return Err(JError::NonceError);
    }
    let mut v = match arg_to_string_list(rank, items) {
        Ok(v) => v,
        Err(e) => return Err(e),
    };
    let ghost ss = v@.map_values(|s: String| s@);
    assert(ss.len() == v@.len());
    assert(string_list_spec(rank as nat, items@) matches Some(w) && w.len() == 1);
    assert(v@.len() == 1);
    assert(ss[0] == v@[0]@);
    Ok(v.remove(0))
}

} // verus!
