//! Setting up a first configuration file.
use vstd::prelude::*;

use crate::paths::join_path;

verus! {

/// The directory and the file of the global configuration.
#[derive(Clone, Debug)]
pub struct InitPaths {
    pub dir: String,
    pub file: String,
}

/// What to do about the configuration file.
#[derive(Clone, Debug)]
pub enum InitFile {
    /// The file is there: leave it as it is, and say so.
    Keep { warning: String },
    /// Write the file, and then say so.
    Write { notice: String },
}

/// The configuration directory below a home directory.
pub open spec fn config_dir(home: Seq<char>) -> Seq<char> {
    crate::paths::joined(crate::paths::joined(home, ".config"@), "airun"@)
}

/// Finds the place of the configuration; the error is for a user without a home directory.
pub fn init_paths(home: &Option<String>) -> (result: Result<InitPaths, String>)
    ensures
        result is Ok <==> home is Some,
        result matches Ok(paths) ==> {
            &&& paths.dir@ == config_dir(home->0@)
            &&& paths.file@ == crate::paths::joined(config_dir(home->0@), "config.toml"@)
            &&& paths.dir@ == crate::paths::joined(
                crate::paths::joined(home->0@, ".config"@),
                "airun"@,
            )
            &&& paths.file@ == crate::paths::joined(paths.dir@, "config.toml"@)
        },
        result matches Err(error) ==> error@ == "HOME environment variable not set"@,
{
    match home {
        Some(home) => {
            let config = join_path(home.as_str(), ".config");
            let dir = join_path(config.as_str(), "airun");
            let file = join_path(dir.as_str(), "config.toml");
            Ok(InitPaths { dir, file })
        },
        None => Err("HOME environment variable not set".to_owned()),
    }
}

/// What to say once the directory has been created; `None` where it is already there and need
/// not be.
pub fn init_directory(paths: &InitPaths, dir_exists: bool) -> (notice: Option<String>)
    ensures
        notice is None <==> dir_exists,
        notice is Some ==> notice->0@ == "created directory: "@ + paths.dir@,
{
    if dir_exists {
        None
    } else {
        Some("created directory: ".to_owned().concat(paths.dir.as_str()))
    }
}

/// What to do about the file. One that is there is never written over.
pub fn init_file(paths: &InitPaths, file_exists: bool) -> (action: InitFile)
    ensures
        file_exists ==> (action matches InitFile::Keep { warning } && warning@
            == "configuration file already exists at: "@ + paths.file@),
        !file_exists ==> (action matches InitFile::Write { notice } && notice@
            == "initialized configuration at: "@ + paths.file@),
{
    if file_exists {
        InitFile::Keep {
            warning: "configuration file already exists at: ".to_owned().concat(
                paths.file.as_str(),
            ),
        }
    } else {
        InitFile::Write {
            notice: "initialized configuration at: ".to_owned().concat(paths.file.as_str()),
        }
    }
}

/// The file that is set up is the last that is looked for: any configuration in the project comes
/// before it.
pub proof fn law_initialized_file_is_found(home: Seq<char>)
    ensures
        crate::locate::config_locations(Some(home)).last() == crate::paths::joined(
            config_dir(home),
            "config.toml"@,
        ),
{
    reveal_strlit(".config");
    reveal_strlit("airun");
    reveal_strlit("config.toml");
    reveal_strlit(".config/airun/config.toml");
    let one = crate::paths::joined(home, ".config"@);
    let two = config_dir(home);
    assert(".config/airun/config.toml"@ == ".config"@ + seq!['/'] + "airun"@ + seq!['/']
        + "config.toml"@);
    assert(one.last() == 'g');
    assert(two == one.push('/') + "airun"@);
    assert(two.last() == 'n');
    if home.len() == 0 || home.last() == '/' {
        assert(home + ".config/airun/config.toml"@ == two.push('/') + "config.toml"@);
    } else {
        assert(home.push('/') + ".config/airun/config.toml"@ == two.push('/') + "config.toml"@);
    }
}

} // verus!
