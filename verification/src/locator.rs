//! Finding the configuration: an explicit path or flake URI, or a search
//! through the parent directories.

use vstd::prelude::*;
use vstd::string::*;
use crate::text::contains_char;

verus! {

/// The two file names under which a configuration is looked for.
#[derive(Debug, Clone, Copy, PartialEq, Eq, Structural)]
pub enum ConfigFile {
    /// `flake.nix`
    Flake,
    /// `hive.nix`
    Legacy,
}

/// What was seen in one directory: its path, and whether each of the two
/// configuration files is there.
#[derive(Debug)]
pub struct DirProbe {
    pub dir: String,
    pub has_flake: bool,
    pub has_legacy: bool,
}

/// What was given on the command line: the configuration argument, if it
/// was given at all, and whether traces were asked for.
#[derive(Debug)]
pub struct ConfigArgs {
    pub config: Option<String>,
    pub show_trace: bool,
}

/// What the file system shows: whether the normalised configuration
/// argument exists, and the working directory with its ancestors, nearest
/// first.
#[derive(Debug)]
pub struct Surroundings {
    pub config_exists: bool,
    pub ancestors: Vec<DirProbe>,
}

/// Where the configuration is.
#[derive(Debug)]
pub enum ConfigSource {
    /// A file at this path.
    Path(String),
    /// A flake at this URI, yet to be resolved.
    FlakeUri(String),
}

/// What the contracts know of a source: its kind and its text.
pub enum SourceModel {
    Path(Seq<char>),
    FlakeUri(Seq<char>),
}

impl View for ConfigSource {
    type V = SourceModel;

    open spec fn view(&self) -> SourceModel {
        match self {
            ConfigSource::Path(path) => SourceModel::Path(path@),
            ConfigSource::FlakeUri(uri) => SourceModel::FlakeUri(uri@),
        }
    }
}

/// The located configuration, and whether the tools that read it are to
/// show traces.
#[derive(Debug)]
pub struct ConfigHandle {
    source: ConfigSource,
    show_trace: bool,
}

/// Why no configuration was located.
#[derive(Debug)]
pub enum ConfigError {
    /// Neither file was found in the directory `start` or in any of its
    /// ancestors.
    NotFound { start: String },
}

/// The text a command-line path is normalised to: an absolute path stays as
/// it is, any other path is prefixed with `./`.
pub open spec fn canonical_cli_path(path: Seq<char>) -> Seq<char> {
    if path.len() > 0 && path[0] == '/' {
        path
    } else {
        seq!['.', '/'] + path
    }
}

/// The path of the file `name` in the directory `dir`.
pub open spec fn joined_path(dir: Seq<char>, name: Seq<char>) -> Seq<char> {
    if dir.len() == 0 {
        name
    } else if dir[dir.len() - 1] == '/' {
        dir + name
    } else {
        dir.push('/') + name
    }
}

/// The source that an explicit argument stands for: a flake URI if it holds
/// a colon and no file exists under its normalised path, else that path.
pub open spec fn explicit_source(argument: Seq<char>, exists: bool) -> SourceModel {
    if !exists && argument.contains(':') {
        SourceModel::FlakeUri(argument)
    } else {
        SourceModel::Path(canonical_cli_path(argument))
    }
}

/// The configuration file that a directory offers: `flake.nix` before
/// `hive.nix`.
pub open spec fn offered(has_flake: bool, has_legacy: bool) -> Option<ConfigFile> {
    if has_flake {
        Some(ConfigFile::Flake)
    } else if has_legacy {
        Some(ConfigFile::Legacy)
    } else {
        None
    }
}

/// Whether none of the first `n` directories offers a configuration file.
pub open spec fn none_offered(levels: Seq<DirProbe>, n: int) -> bool {
    forall|i: int|
        0 <= i < n ==> offered((#[trigger] levels[i]).has_flake, levels[i].has_legacy) is None
}

impl ConfigFile {
    /// The name of the file.
    pub open spec fn name(self) -> Seq<char> {
        match self {
            ConfigFile::Flake => "flake.nix"@,
            ConfigFile::Legacy => "hive.nix"@,
        }
    }

    /// The name of the file.
    pub fn file_name(&self) -> (res: &'static str)
        ensures
            res@ == self.name(),
    {
        match self {
            ConfigFile::Flake => "flake.nix",
            ConfigFile::Legacy => "hive.nix",
        }
    }
}

impl DirProbe {
    /// The configuration file that the directory offers, `flake.nix` before
    /// `hive.nix`.
    pub fn choice(&self) -> (res: Option<ConfigFile>)
        ensures
            res == offered(self.has_flake, self.has_legacy),
    {
        if self.has_flake {
            Some(ConfigFile::Flake)
        } else if self.has_legacy {
            Some(ConfigFile::Legacy)
        } else {
            None
        }
    }
}

impl ConfigHandle {
    /// Where the configuration is.
    pub closed spec fn spec_source(&self) -> ConfigSource {
        self.source
    }

    /// Whether traces are to be shown.
    pub closed spec fn spec_show_trace(&self) -> bool {
        self.show_trace
    }

    /// A handle on the configuration at `source`, without traces.
    pub fn new(source: ConfigSource) -> (res: ConfigHandle)
        ensures
            res.spec_source() == source,
            !res.spec_show_trace(),
    {
        ConfigHandle { source, show_trace: false }
    }

    /// Where the configuration is.
    pub fn source(&self) -> (res: &ConfigSource)
        ensures
            *res == self.spec_source(),
    {
        &self.source
    }

    /// Whether traces are to be shown.
    pub fn show_trace(&self) -> (res: bool)
        ensures
            res == self.spec_show_trace(),
    {
        self.show_trace
    }

    /// Sets whether traces are to be shown, whatever was set before.
    pub fn set_show_trace(&mut self, value: bool)
        ensures
            final(self).spec_show_trace() == value,
            final(self).spec_source() == old(self).spec_source(),
    {
        self.show_trace = value;
    }
}

/// Normalises a path given on the command line.
pub fn canonicalize_cli_path(path: &str) -> (res: String)
    ensures
        res@ == canonical_cli_path(path@),
{
    let absolute = path.unicode_len() > 0 && path.get_char(0) == '/';
    if absolute {
        path.to_owned()
    } else {
        proof {
            reveal_strlit("./");
        }
        let res = "./".to_owned().concat(path);
        assert(res@ =~= seq!['.', '/'] + path@);
        res
    }
}

/// The path of the file `name` in the directory `dir`.
pub fn join_path(dir: &str, name: &str) -> (res: String)
    ensures
        res@ == joined_path(dir@, name@),
{
    let n = dir.unicode_len();
    if n == 0 {
        name.to_owned()
    } else if dir.get_char(n - 1) == '/' {
        dir.to_owned().concat(name)
    } else {
        proof {
            reveal_strlit("/");
        }
        let res = dir.to_owned().concat("/").concat(name);
        assert(res@ =~= dir@.push('/') + name@);
        res
    }
}

/// Decides what an explicit configuration argument stands for. `exists`
/// says whether a file exists under the normalised argument.
pub fn resolve_explicit(argument: &str, exists: bool) -> (res: ConfigSource)
    ensures
        res@ == explicit_source(argument@, exists),
{
    if !exists && contains_char(argument, ':') {
        ConfigSource::FlakeUri(argument.to_owned())
    } else {
        ConfigSource::Path(canonicalize_cli_path(argument))
    }
}

/// Searches the directories, nearest first, for a configuration file. The
/// first directory that offers one wins, with `flake.nix` before `hive.nix`
/// in that directory.
pub fn search_upward(levels: &Vec<DirProbe>) -> (res: Option<(usize, ConfigFile)>)
    ensures
        match res {
            Some((level, file)) => {
                &&& level < levels@.len()
                &&& none_offered(levels@, level as int)
                &&& offered(levels@[level as int].has_flake, levels@[level as int].has_legacy)
                    == Some(file)
            },
            None => none_offered(levels@, levels@.len() as int),
        },
{
    let mut i: usize = 0;
    while i < levels.len()
        invariant
            i <= levels.len(),
            none_offered(levels@, i as int),
        decreases levels.len() - i,
    {
        match levels[i].choice() {
            Some(file) => {
                return Some((i, file));
            },
            None => {},
        }
        i = i + 1;
    }
    None
}

/// Whether the search through `levels` arrives at `source`: the path of the
/// file that the nearest directory with a configuration file offers.
pub open spec fn found_by_search(levels: Seq<DirProbe>, source: SourceModel) -> bool {
    exists|level: int|
        {
            &&& 0 <= level < levels.len()
            &&& none_offered(levels, level)
            &&& #[trigger] offered(levels[level].has_flake, levels[level].has_legacy) is Some
            &&& source == SourceModel::Path(
                joined_path(
                    levels[level].dir@,
                    offered(levels[level].has_flake, levels[level].has_legacy).unwrap().name(),
                ),
            )
        }
}

/// The directory in which the search starts: the nearest one.
pub open spec fn search_start(levels: Seq<DirProbe>) -> Seq<char> {
    if levels.len() > 0 {
        levels[0].dir@
    } else {
        Seq::empty()
    }
}

/// Locates the configuration. An explicit argument is taken as a flake URI
/// or as a path, and is never refused here. Without one, the working
/// directory and its ancestors are searched, and the search fails only if
/// none of them offers a configuration file. The handle that is returned
/// shows traces exactly if the arguments ask for them.
pub fn hive_from_args(args: &ConfigArgs, seen: &Surroundings) -> (res: Result<
    ConfigHandle,
    ConfigError,
>)
    ensures
        res is Err <==> args.config is None && none_offered(
            seen.ancestors@,
            seen.ancestors@.len() as int,
        ),
        res matches Ok(handle) ==> handle.spec_show_trace() == args.show_trace,
        res matches Ok(handle) ==> match args.config {
            Some(argument) => handle.spec_source()@ == explicit_source(
                argument@,
                seen.config_exists,
            ),
            None => found_by_search(seen.ancestors@, handle.spec_source()@),
        },
        res matches Err(ConfigError::NotFound { start }) ==> start@ == search_start(
            seen.ancestors@,
        ),
{
    let source = match &args.config {
        Some(argument) => resolve_explicit(argument.as_str(), seen.config_exists),
        None => {
            match search_upward(&seen.ancestors) {
                Some((level, file)) => {
                    let found = ConfigSource::Path(
                        join_path(seen.ancestors[level].dir.as_str(), file.file_name()),
                    );
                    assert(offered(
                        seen.ancestors@[level as int].has_flake,
                        seen.ancestors@[level as int].has_legacy,
                    ) is Some);
                    found
                },
                None => {
                    let start = if seen.ancestors.len() > 0 {
                        seen.ancestors[0].dir.clone()
                    } else {
                        String::new()
                    };
                    return Err(ConfigError::NotFound { start });
                },
            }
        },
    };
    let mut handle = ConfigHandle::new(source);
    handle.set_show_trace(args.show_trace);
    Ok(handle)
}

} // verus!
