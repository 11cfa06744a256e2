//! Where the user's files stand, as the environment tells.

use vstd::prelude::*;
use vstd::string::*;

use crate::model::copy_option;
use crate::paths::join_path;
use crate::text::chars_of;
use crate::text::joined;

verus! {

/// Systems whose directories differ.
#[derive(Debug, Clone, Copy, PartialEq, Eq, Structural)]
pub enum Platform {
    Unix,
    MacOs,
    Windows,
}

/// Variables of the environment that name directories, as far as they are set.
#[derive(Debug, Clone, PartialEq, Eq)]
pub struct DirectoryVariables {
    /// `HOME`
    pub home: Option<String>,
    /// `XDG_CONFIG_HOME`
    pub xdg_config_home: Option<String>,
    /// `XDG_RUNTIME_DIR`
    pub xdg_runtime_dir: Option<String>,
    /// `APPDATA`
    pub app_data: Option<String>,
    /// `USERPROFILE`
    pub user_profile: Option<String>,
    /// `HOMEDRIVE`
    pub home_drive: Option<String>,
    /// `HOMEPATH`
    pub home_path: Option<String>,
}

#[verifier::ext_equal]
pub struct DirectoryView {
    pub home: Option<Seq<char>>,
    pub xdg_config_home: Option<Seq<char>>,
    pub xdg_runtime_dir: Option<Seq<char>>,
    pub app_data: Option<Seq<char>>,
    pub user_profile: Option<Seq<char>>,
    pub home_drive: Option<Seq<char>>,
    pub home_path: Option<Seq<char>>,
}

impl View for DirectoryVariables {
    type V = DirectoryView;

    open spec fn view(&self) -> DirectoryView {
        DirectoryView {
            home: crate::model::option_view(self.home),
            xdg_config_home: crate::model::option_view(self.xdg_config_home),
            xdg_runtime_dir: crate::model::option_view(self.xdg_runtime_dir),
            app_data: crate::model::option_view(self.app_data),
            user_profile: crate::model::option_view(self.user_profile),
            home_drive: crate::model::option_view(self.home_drive),
            home_path: crate::model::option_view(self.home_path),
        }
    }
}

impl Default for DirectoryVariables {
    /// Nothing is set.
    fn default() -> (r: Self)
        ensures
            r@ == (DirectoryView {
                home: None,
                xdg_config_home: None,
                xdg_runtime_dir: None,
                app_data: None,
                user_profile: None,
                home_drive: None,
                home_path: None,
            }),
    {
        DirectoryVariables {
            home: None,
            xdg_config_home: None,
            xdg_runtime_dir: None,
            app_data: None,
            user_profile: None,
            home_drive: None,
            home_path: None,
        }
    }
}

/// A letter and a colon: the current directory of a drive.
pub open spec fn is_drive(path: Seq<char>) -> bool {
    path.len() == 2 && path[1] == ':' && ('a' <= path[0] <= 'z' || 'A' <= path[0] <= 'Z')
}

/// An entry of a directory; the name is a plain one, without separators. On
/// Windows a backslash stands before it, unless there is a separator already or
/// the directory is that of a drive.
pub open spec fn entry_path(directory: Seq<char>, name: Seq<char>, platform: Platform) -> Seq<
    char,
> {
    if !(platform is Windows) {
        crate::paths::path_join(directory, name)
    } else if directory.len() == 0 || directory.last() == '\\' || directory.last() == '/'
        || is_drive(directory) {
        directory + name
    } else {
        directory + seq!['\\'] + name
    }
}

pub fn entry_of(directory: &str, name: &str, platform: Platform) -> (r: String)
    ensures
        r@ == entry_path(directory@, name@, platform),
{
    match platform {
        Platform::Windows => {},
        _ => {
            return join_path(directory, name);
        },
    }
    let chars = chars_of(directory);
    let count = chars.len();
    let drive = count == 2 && chars[1] == ':' && ('a' <= chars[0] && chars[0] <= 'z' || 'A'
        <= chars[0] && chars[0] <= 'Z');
    let mut out = directory.to_owned();
    if !(count == 0 || chars[count - 1] == '\\' || chars[count - 1] == '/' || drive) {
        out.push('\\');
        assert(out@ =~= directory@ + seq!['\\']);
    }
    out.append(name);
    out
}

/// The home directory of the user, for OpenSSH.
pub open spec fn user_home(platform: Platform, variables: DirectoryView) -> Option<Seq<char>> {
    if !(platform is Windows) {
        variables.home
    } else if variables.user_profile is Some {
        variables.user_profile
    } else if variables.home_drive is Some && variables.home_path is Some {
        Some(variables.home_drive->0 + variables.home_path->0)
    } else {
        variables.home
    }
}

fn windows_home_from_drive_path(variables: &DirectoryVariables) -> (r: Option<String>)
    ensures
        crate::model::option_view(r) == (if variables@.home_drive is Some
            && variables@.home_path is Some {
            Some(variables@.home_drive->0 + variables@.home_path->0)
        } else {
            None
        }),
{
    match (&variables.home_drive, &variables.home_path) {
        (Some(drive), Some(path)) => Some(joined(drive.as_str(), path.as_str())),
        _ => None,
    }
}

pub fn user_home_dir(platform: Platform, variables: &DirectoryVariables) -> (r: Option<String>)
    ensures
        crate::model::option_view(r) == user_home(platform, variables@),
{
    match platform {
        Platform::Windows => {},
        _ => {
            return copy_option(&variables.home);
        },
    }
    if variables.user_profile.is_some() {
        return copy_option(&variables.user_profile);
    }
    let home = windows_home_from_drive_path(variables);
    if home.is_some() {
        return home;
    }
    copy_option(&variables.home)
}

/// The user's OpenSSH configuration; nothing where there is no home directory.
pub fn openssh_config_path(platform: Platform, variables: &DirectoryVariables) -> (r: Option<String>)
    ensures
        crate::model::option_view(r) == (match user_home(platform, variables@) {
            Some(home) => Some(
                entry_path(entry_path(home, ".ssh"@, platform), "config"@, platform),
            ),
            None => None,
        }),
{
    match user_home_dir(platform, variables) {
        Some(home) => {
            let directory = entry_of(home.as_str(), ".ssh", platform);
            Some(entry_of(directory.as_str(), "config", platform))
        },
        None => None,
    }
}

} // verus!
