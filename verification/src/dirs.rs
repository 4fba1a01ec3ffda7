//! Profiles, and where each keeps its files.

use std::path::PathBuf;
use vstd::prelude::*;
use vstd::string::*;

use crate::text::same_text;

verus! {

#[verifier::external_type_specification]
#[verifier::external_body]
pub struct ExPathBuf(std::path::PathBuf);

/// The path that `Path::join` gives for a path and a text.
pub uninterp spec fn path_join(base: std::path::PathBuf, part: Seq<char>) -> std::path::PathBuf;

/// The pieces of a path: the drive that it begins with, if it names one, and what
/// stands between its separators and is not empty.
pub uninterp spec fn path_pieces(p: std::path::PathBuf) -> Seq<Seq<char>>;

/// Whether a path is one of a platform with drives, on which a backslash separates.
pub uninterp spec fn has_drives(p: std::path::PathBuf) -> bool;

/// The path that `PathBuf::from` gives for a text.
pub uninterp spec fn path_of(s: Seq<char>) -> std::path::PathBuf;

/// Whether a text is a single component of a path: it has no separator, names no
/// drive, and is not one of the two dotted names.
pub open spec fn is_one_component(s: Seq<char>, drives: bool) -> bool {
    &&& s.len() > 0
    &&& !(s.len() == 1 && s[0] == '.')
    &&& !(s.len() == 2 && s[0] == '.' && s[1] == '.')
    &&& forall|i: int| 0 <= i < s.len() ==> (#[trigger] s[i]) != '/'
    &&& drives ==> {
        &&& forall|i: int| 0 <= i < s.len() ==> (#[trigger] s[i]) != '\\'
        &&& !(s.len() >= 2 && s[1] == ':')
    }
}

/// `Path::join`: the path with a part adjoined, on the same platform. A part that is
/// a single component becomes one more piece; of other parts, which may replace the
/// path, no more is stated than that the result depends on the two alone.
#[verifier::external_body]
fn join(base: &PathBuf, part: &str) -> (r: PathBuf)
    ensures
        r == path_join(*base, part@),
        has_drives(r) == has_drives(*base),
        is_one_component(part@, has_drives(*base)) ==> path_pieces(r) == path_pieces(*base).push(
            part@,
        ),
{
    base.join(part)
}

/// `PathBuf::from` on a string: the path that the string spells. Its pieces are
/// not stated.
#[verifier::external_body]
fn path_from(s: String) -> (r: PathBuf)
    ensures
        r == path_of(s@),
{
    PathBuf::from(s)
}

/// Why a directory is not known.
#[derive(Clone, Copy, Debug, PartialEq, Eq, Structural)]
pub enum DirError {
    NoConfigDir,
    NoHomeDir,
}

impl DirError {
    /// The error in words.
    pub fn message(&self) -> (r: &'static str)
        ensures
            r@ == match *self {
                DirError::NoConfigDir => "Unable to read user config dir"@,
                DirError::NoHomeDir => "Unable to read home_dir"@,
            },
    {
        match self {
            DirError::NoConfigDir => "Unable to read user config dir",
            DirError::NoHomeDir => "Unable to read home_dir",
        }
    }
}

/// A text that was given and is not empty.
pub open spec fn given(s: Option<&str>) -> Option<Seq<char>> {
    match s {
        Some(s) if s@.len() > 0 => Some(s@),
        _ => None,
    }
}

/// Resolves the profile of an instance: the command line wins, then the
/// environment, then the testing flag, else it is `default`. An empty name
/// counts as none.
pub fn resolve_profile(
    cli_profile: Option<&str>,
    testing: bool,
    env_profile: Option<&str>,
) -> (r: String)
    ensures
        r@ == match (given(cli_profile), given(env_profile)) {
            (Some(p), _) => p,
            (None, Some(p)) => p,
            (None, None) => if testing {
                "testing"@
            } else {
                "default"@
            },
        },
        cli_profile matches Some(p) ==> p@.len() > 0 ==> r@ == p@,
        env_profile matches Some(p) ==> p@.len() > 0 && (cli_profile matches Some(q)
            ==> q@.len() == 0) ==> r@ == p@,
{
    if let Some(p) = cli_profile {
        if !p.is_empty() {
            return p.to_owned();
        }
    }
    if let Some(p) = env_profile {
        if !p.is_empty() {
            return p.to_owned();
        }
    }
    if testing {
        "testing".to_owned()
    } else {
        "default".to_owned()
    }
}

/// The name under which a profile keeps its directories.
pub open spec fn app_name(profile: Seq<char>) -> Seq<char> {
    if profile == "default"@ || profile == "testing"@ {
        "activitywatch"@
    } else {
        "activitywatch-"@ + profile
    }
}

/// The name under which a profile keeps its directories. `default` and `testing`
/// share the bare one; any other profile has its own.
pub fn appname_for(profile: &str) -> (r: String)
    ensures
        r@ == app_name(profile@),
{
    if same_text(profile, "default") || same_text(profile, "testing") {
        "activitywatch".to_owned()
    } else {
        let mut name = "activitywatch-".to_owned();
        name.append(profile);
        name
    }
}

/// The name of the configuration file of a profile.
pub open spec fn config_name(profile: Seq<char>) -> Seq<char> {
    if profile == "default"@ {
        "config.toml"@
    } else {
        "config-"@ + profile + ".toml"@
    }
}

/// The name of the configuration file of a profile.
pub fn config_filename(profile: &str) -> (r: String)
    ensures
        r@ == config_name(profile@),
{
    if same_text(profile, "default") {
        "config.toml".to_owned()
    } else {
        let mut name = "config-".to_owned();
        name.append(profile);
        name.append(".toml");
        name
    }
}

/// Whether a path is the synchronizer's configuration directory under an application
/// name, below the configuration directory of the user.
pub open spec fn is_sync_dir(path: PathBuf, config_dir: PathBuf, appname: Seq<char>) -> bool {
    &&& path == path_join(path_join(config_dir, appname), "aw-sync"@)
    &&& is_one_component(appname, has_drives(config_dir)) ==> path_pieces(path) == path_pieces(
        config_dir,
    ) + seq![appname, "aw-sync"@]
}

/// The configuration directory of the synchronizer, below that of the user. No
/// directory is created.
pub fn sync_config_dir(config_dir: Option<PathBuf>, appname: &str) -> (r: Result<
    PathBuf,
    DirError,
>)
    ensures
        match config_dir {
            Some(dir) => r matches Ok(path) && is_sync_dir(path, dir, appname@) && path
                == path_join(path_join(dir, appname@), "aw-sync"@),
            None => r == Err::<PathBuf, DirError>(DirError::NoConfigDir),
        },
{
    match config_dir {
        Some(dir) => {
            proof {
                reveal_strlit("aw-sync");
            }
            let path = join(&join(&dir, appname), "aw-sync");
            assert(path_pieces(dir).push(appname@).push("aw-sync"@) =~= path_pieces(dir) + seq![
                appname@,
                "aw-sync"@,
            ]);
            Ok(path)
        },
        None => Err(DirError::NoConfigDir),
    }
}

/// The profile whose configuration the server reads. Before a profile is set,
/// the testing flag still stands for `testing`.
pub open spec fn server_profile(profile: Seq<char>, testing: bool) -> Seq<char> {
    if profile == "default"@ && testing {
        "testing"@
    } else {
        profile
    }
}

/// The configuration file of the server, in its configuration directory.
///
/// `config_dir` is that directory, if it could be had; `profile` is the one that
/// was set, or `default`.
pub fn get_server_config_path(
    config_dir: Result<PathBuf, ()>,
    profile: &str,
    testing: bool,
) -> (r: Result<PathBuf, ()>)
    ensures
        match config_dir {
            Ok(dir) => {
                let name = config_name(server_profile(profile@, testing));
                &&& r matches Ok(path)
                &&& path == path_join(dir, name)
                &&& is_one_component(name, has_drives(dir)) ==> path_pieces(path)
                    == path_pieces(dir).push(name)
            },
            Err(_) => r is Err,
        },
        config_dir matches Ok(dir) ==> r matches Ok(path) && {
            &&& profile@ != "default"@ ==> path == path_join(dir, config_name(profile@))
            &&& profile@ == "default"@ && testing ==> path == path_join(
                dir,
                config_name("testing"@),
            )
            &&& profile@ == "default"@ && !testing ==> path == path_join(dir, "config.toml"@)
        },
{
    match config_dir {
        Ok(dir) => {
            let filename = if same_text(profile, "default") && testing {
                config_filename("testing")
            } else {
                config_filename(profile)
            };
            Ok(join(&dir, filename.as_str()))
        },
        Err(err) => Err(err),
    }
}

/// The directory that is synchronized: the one that the environment names, or
/// one in the home directory.
pub fn get_sync_dir(env_dir: Option<String>, home_dir: Option<PathBuf>) -> (r: Result<
    PathBuf,
    DirError,
>)
    ensures
        match (env_dir, home_dir) {
            (Some(dir), _) => r == Ok::<PathBuf, DirError>(path_of(dir@)),
            (None, Some(home)) => {
                &&& r matches Ok(path)
                &&& path == path_join(home, "ActivityWatchSync"@)
                &&& path_pieces(path) == path_pieces(home).push("ActivityWatchSync"@)
            },
            (None, None) => r == Err::<PathBuf, DirError>(DirError::NoHomeDir),
        },
{
    if let Some(dir) = env_dir {
        return Ok(path_from(dir));
    }
    match home_dir {
        Some(home) => {
            proof {
                reveal_strlit("ActivityWatchSync");
            }
            Ok(join(&home, "ActivityWatchSync"))
        },
        None => Err(DirError::NoHomeDir),
    }
}

/// Two application names, each a single component, give the same directory of the
/// synchronizer only if they are the same.
pub proof fn names_have_dirs_of_their_own(
    config_dir: PathBuf,
    a: Seq<char>,
    b: Seq<char>,
    dir_a: PathBuf,
    dir_b: PathBuf,
)
    requires
        is_sync_dir(dir_a, config_dir, a),
        is_sync_dir(dir_b, config_dir, b),
        is_one_component(a, has_drives(config_dir)),
        is_one_component(b, has_drives(config_dir)),
    ensures
        dir_a == dir_b <==> a == b,
        path_pieces(dir_a) == path_pieces(dir_b) <==> a == b,
{
    let n = path_pieces(config_dir).len() as int;
    assert(path_pieces(dir_a)[n] == a);
    assert(path_pieces(dir_b)[n] == b);
}

/// Two profiles without separators share the synchronizer's configuration directory
/// only if they are the same, or are `default` and `testing`.
pub proof fn named_profiles_are_isolated(
    config_dir: PathBuf,
    p: Seq<char>,
    q: Seq<char>,
    dir_p: PathBuf,
    dir_q: PathBuf,
)
    requires
        is_sync_dir(dir_p, config_dir, app_name(p)),
        is_sync_dir(dir_q, config_dir, app_name(q)),
        no_separator(p, has_drives(config_dir)),
        no_separator(q, has_drives(config_dir)),
    ensures
        ({
            let shared = |s: Seq<char>| s == "default"@ || s == "testing"@;
            let same = p == q || (shared(p) && shared(q));
            &&& dir_p == dir_q <==> same
            &&& path_pieces(dir_p) == path_pieces(dir_q) <==> same
        }),
{
    profile_names_are_components(p, has_drives(config_dir));
    profile_names_are_components(q, has_drives(config_dir));
    names_have_dirs_of_their_own(config_dir, app_name(p), app_name(q), dir_p, dir_q);
    reveal_strlit("activitywatch");
    reveal_strlit("activitywatch-");
    if app_name(p) == app_name(q) {
        let prefix = "activitywatch-"@;
        assert((prefix + p).skip(prefix.len() as int) =~= p);
        assert((prefix + q).skip(prefix.len() as int) =~= q);
        assert(app_name(p).len() == app_name(q).len());
    }
}

/// Whether a text has no separator.
pub open spec fn no_separator(s: Seq<char>, drives: bool) -> bool {
    forall|i: int|
        0 <= i < s.len() ==> (#[trigger] s[i]) != '/' && (drives ==> s[i] != '\\')
}

/// The names that a profile without separators has for its directories and its
/// configuration file are single components, whatever else it holds.
pub proof fn profile_names_are_components(p: Seq<char>, drives: bool)
    requires
        no_separator(p, drives),
    ensures
        is_one_component(app_name(p), drives),
        is_one_component(config_name(p), drives),
{
    reveal_strlit("activitywatch");
    reveal_strlit("activitywatch-");
    reveal_strlit("config.toml");
    reveal_strlit("config-");
    reveal_strlit(".toml");
}

/// No two profiles have the same configuration file.
pub proof fn config_files_are_apart(p: Seq<char>, q: Seq<char>)
    ensures
        config_name(p) == config_name(q) <==> p == q,
{
    reveal_strlit("config.toml");
    reveal_strlit("config-");
    reveal_strlit(".toml");
    if config_name(p) == config_name(q) {
        let named = |s: Seq<char>| "config-"@ + s + ".toml"@;
        assert(named(p).subrange(7, named(p).len() - 5) =~= p);
        assert(named(q).subrange(7, named(q).len() - 5) =~= q);
        assert(named(p)[6] == '-');
        assert(named(q)[6] == '-');
        assert("config.toml"@[6] == '.');
    }
}

/// The profile that was set is the one whose configuration is read, whatever the testing
/// flag says, unless that is `default`. Then the flag decides between `testing` and
/// `default`.
pub proof fn testing_flag_matters_for_default_alone(profile: Seq<char>, testing: bool)
    ensures
        profile != "default"@ ==> server_profile(profile, testing) == profile,
        server_profile("default"@, true) == "testing"@,
        server_profile("default"@, false) == "default"@,
{
}

/// The configuration file of a profile has the name of the profile in it, and that of
/// `default` has none.
pub proof fn config_file_has_name_of_profile(p: Seq<char>)
    ensures
        p != "default"@ ==> config_name(p) == "config-"@ + p + ".toml"@,
        config_name("default"@) == "config.toml"@,
{
}

/// The directories of a profile have the name of the profile in them, and those of
/// `default` and `testing` have none.
pub proof fn app_name_has_name_of_profile(p: Seq<char>)
    ensures
        p != "default"@ && p != "testing"@ ==> app_name(p) == "activitywatch-"@ + p,
        app_name("default"@) == "activitywatch"@,
        app_name("testing"@) == "activitywatch"@,
{
}

/// A name counts as given exactly if it is not empty, and then as it is.
pub proof fn given_name_is_not_empty(s: &str)
    ensures
        given(Some(s)) == if s@.len() == 0 {
            None
        } else {
            Some(s@)
        },
        given(None) is None,
{
}

} // verus!
