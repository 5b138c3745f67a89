//! The files that the library keeps below the home directory.

use vstd::prelude::*;
use vstd::utf8::{decode_utf8, encode_utf8, valid_utf8};
use crate::config::Config;
use crate::deploy::Platform;
use crate::tools::{lossy_text, read_lossy};

verus! {

/// `dirs::home_dir`: the home directory of the user, if there is one, as the
/// bytes of its path. Which one it is depends on the environment, so nothing is
/// said of it here.
#[verifier::external_body]
fn home_directory() -> (r: Option<Vec<u8>>) {
    dirs::home_dir().map(|path| path.into_os_string().into_encoded_bytes())
}

/// There is no home directory to look in.
#[derive(Clone, Copy, Debug, PartialEq, Eq, Structural)]
pub enum HomeUnavailable {
    ForConfig,
    ForRuntime,
}

impl HomeUnavailable {
    /// The message for a reader.
    pub fn message(&self) -> (r: String)
        ensures
            r@ == match *self {
                HomeUnavailable::ForConfig => "home directory is unavailable"@,
                HomeUnavailable::ForRuntime => "home directory unavailable"@,
            },
    {
        match self {
            HomeUnavailable::ForConfig => "home directory is unavailable".to_owned(),
            HomeUnavailable::ForRuntime => "home directory unavailable".to_owned(),
        }
    }
}

/// The bytes of a path below a directory: a slash is put between the two unless
/// the directory is empty or ends in one.
pub open spec fn below(directory: Seq<u8>, path: Seq<char>) -> Seq<u8> {
    if directory.len() == 0 || directory.last() == 47 {
        directory + encode_utf8(path)
    } else {
        directory.push(47) + encode_utf8(path)
    }
}

fn path_below(directory: &Vec<u8>, path: &str) -> (r: Vec<u8>)
    ensures
        r@ == below(directory@, path@),
{
    let mut out: Vec<u8> = Vec::new();
    let mut i: usize = 0;
    while i < directory.len()
        invariant
            i <= directory@.len(),
            out@ == directory@.take(i as int),
        decreases directory@.len() - i,
    {
        out.push(directory[i]);
        i = i + 1;
        assert(out@ =~= directory@.take(i as int));
    }
    assert(out@ =~= directory@);
    if directory.len() > 0 && directory[directory.len() - 1] != 47 {
        out.push(47);
    }
    let ghost base = out@;
    let bytes = path.as_bytes();
    let mut k: usize = 0;
    assert(out@ =~= base + bytes@.take(0));
    while k < bytes.len()
        invariant
            k <= bytes@.len(),
            out@ == base + bytes@.take(k as int),
        decreases bytes@.len() - k,
    {
        out.push(bytes[k]);
        k = k + 1;
        assert(out@ =~= base + bytes@.take(k as int));
    }
    assert(bytes@.take(k as int) =~= bytes@);
    assert(out@ =~= below(directory@, path@));
    out
}

/// The bytes of an optional directory.
pub open spec fn directory_view(home: Option<Vec<u8>>) -> Option<Seq<u8>> {
    match home {
        Some(bytes) => Some(bytes@),
        None => None,
    }
}

/// The bytes of the path of the configuration file below `home`.
pub fn config_file(home: &Option<Vec<u8>>) -> (r: Result<Vec<u8>, HomeUnavailable>)
    ensures
        match directory_view(*home) {
            Some(h) => r matches Ok(path) && path@ == below(h, ".sshctx/config.toml"@),
            None => r == Err::<Vec<u8>, HomeUnavailable>(HomeUnavailable::ForConfig),
        },
{
    match home {
        Some(h) => Ok(path_below(h, ".sshctx/config.toml")),
        None => Err(HomeUnavailable::ForConfig),
    }
}

impl Config {
    /// The bytes of the path of the user's configuration file.
    pub fn path() -> (r: Result<Vec<u8>, HomeUnavailable>)
        ensures
            match r {
                Ok(path) => exists|h: Seq<u8>| path@ == #[trigger] below(h, ".sshctx/config.toml"@),
                Err(e) => e == HomeUnavailable::ForConfig,
            },
    {
        config_file(&home_directory())
    }
}

/// Where a control center listens: a named pipe, or a socket below `home` whose
/// path is written as text.
pub open spec fn endpoint_view(platform: Platform, home: Option<Seq<u8>>) -> Option<Seq<char>> {
    match platform {
        Platform::Windows => Some("\\\\.\\pipe\\sshctx-runtime-v1"@),
        Platform::Unix => match home {
            Some(h) => Some(lossy_text(below(h, ".sshctx/runtime.sock"@))),
            None => None,
        },
    }
}

/// Where a control center listens.
pub fn endpoint_below(platform: Platform, home: &Option<Vec<u8>>) -> (r: Result<String, HomeUnavailable>)
    ensures
        match endpoint_view(platform, directory_view(*home)) {
            Some(s) => r matches Ok(path) && path@ == s,
            None => r == Err::<String, HomeUnavailable>(HomeUnavailable::ForRuntime),
        },
        directory_view(*home) matches Some(h) ==> r matches Ok(path) ==> platform == Platform::Unix && valid_utf8(
            below(h, ".sshctx/runtime.sock"@),
        ) ==> path@ == decode_utf8(below(h, ".sshctx/runtime.sock"@)),
{
    match platform {
        Platform::Windows => Ok("\\\\.\\pipe\\sshctx-runtime-v1".to_owned()),
        Platform::Unix => match home {
            Some(h) => Ok(read_lossy(&path_below(h, ".sshctx/runtime.sock"))),
            None => Err(HomeUnavailable::ForRuntime),
        },
    }
}

/// Where the control center of the user listens.
pub fn default_endpoint(platform: Platform) -> (r: Result<String, HomeUnavailable>)
    ensures
        match platform {
            Platform::Windows => r matches Ok(path) && path@ == "\\\\.\\pipe\\sshctx-runtime-v1"@,
            Platform::Unix => match r {
                Ok(path) => exists|h: Seq<u8>| path@ == lossy_text(#[trigger] below(h, ".sshctx/runtime.sock"@)),
                Err(e) => e == HomeUnavailable::ForRuntime,
            },
        },
{
    endpoint_below(platform, &home_directory())
}

/// The bytes of the path of the audit log below `home`.
pub fn audit_file(home: &Option<Vec<u8>>) -> (r: Result<Vec<u8>, HomeUnavailable>)
    ensures
        match directory_view(*home) {
            Some(h) => r matches Ok(path) && path@ == below(h, ".sshctx/audit.jsonl"@),
            None => r == Err::<Vec<u8>, HomeUnavailable>(HomeUnavailable::ForRuntime),
        },
{
    match home {
        Some(h) => Ok(path_below(h, ".sshctx/audit.jsonl")),
        None => Err(HomeUnavailable::ForRuntime),
    }
}

/// The bytes of the path of the user's audit log.
pub fn default_audit_file() -> (r: Result<Vec<u8>, HomeUnavailable>)
    ensures
        match r {
            Ok(path) => exists|h: Seq<u8>| path@ == #[trigger] below(h, ".sshctx/audit.jsonl"@),
            Err(e) => e == HomeUnavailable::ForRuntime,
        },
{
    audit_file(&home_directory())
}

/// A path below a directory is the directory, one slash and the path; a directory that
/// ends in a slash gets no other, and below no directory the path stands alone.
pub proof fn law_a_path_lies_one_slash_below_its_directory(directory: Seq<u8>, path: Seq<char>)
    ensures
        directory.len() > 0 && directory.last() != 0x2f ==> below(directory, path) == directory + seq![0x2fu8]
            + encode_utf8(path),
        directory.len() > 0 && directory.last() == 0x2f ==> below(directory, path) == directory + encode_utf8(path),
        directory.len() == 0 ==> below(directory, path) == encode_utf8(path),
{
    assert(directory.push(0x2f) =~= directory + seq![0x2fu8]);
    if directory.len() == 0 {
        assert(directory + encode_utf8(path) =~= encode_utf8(path));
    }
}

/// A control center listens at a named pipe on Windows, wherever the home directory is,
/// and elsewhere at a socket in `.sshctx` below the home directory, if there is one.
pub proof fn law_where_a_control_center_listens(home: Option<Seq<u8>>)
    ensures
        endpoint_view(Platform::Windows, home) == Some("\\\\.\\pipe\\sshctx-runtime-v1"@),
        endpoint_view(Platform::Unix, home) == match home {
            Some(h) => Some(lossy_text(below(h, ".sshctx/runtime.sock"@))),
            None => None,
        },
{
}

} // verus!
