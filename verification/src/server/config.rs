//! The settings the server runs with: built-in defaults, overridden by a configuration
//! file, overridden by the environment.

use crate::cleanup::texts;
use crate::decimal::{parse_u64, parsed_u64};
use crate::paths::{join_paths, path_join};
use crate::server::utils::holds;
use crate::text::{
    chars_of, lowered, segments, split_segments, string_of, to_lowered, trim, trimmed,
};
use vstd::prelude::*;

verus! {

broadcast use vstd::seq_lib::lemma_seq_contains_after_push;

/// Where the root directory was set.
#[derive(Clone, Copy, Debug, PartialEq, Eq, Structural)]
pub enum RootSource {
    Default,
    ConfigFile,
    EnvVar,
    Cli,
}

/// The settings of the server. The two lists hold each name once.
#[derive(Clone, Debug, PartialEq, Eq)]
pub struct Config {
    pub port: u16,
    pub upload_token: String,
    pub max_file_size: u64,
    pub blacklisted_files: Vec<String>,
    pub allowed_extensions: Vec<String>,
    pub root_override: Option<String>,
    pub config_dir: Option<String>,
    pub root_source: RootSource,
}

/// What a configuration file sets.
#[derive(Clone, Debug, PartialEq, Eq)]
pub struct FileConfig {
    pub port: Option<u16>,
    pub upload_token: Option<String>,
    pub max_file_size: Option<u64>,
    pub blacklisted_files: Option<Vec<String>>,
    pub allowed_extensions: Option<Vec<String>>,
    pub root: Option<String>,
}

/// A configuration file that was read, and the directory it lies in.
#[derive(Clone, Debug, PartialEq, Eq)]
pub struct LoadedFile {
    pub config: FileConfig,
    pub directory: Option<String>,
}

/// What the environment sets: the values of `SERVE_PORT`, `SERVE_UPLOAD_TOKEN`,
/// `SERVE_MAX_FILE_SIZE`, `SERVE_BLACKLIST`, `SERVE_ALLOWED_EXT` and `SERVE_ROOT`.
#[derive(Clone, Debug, PartialEq, Eq)]
pub struct ServerEnv {
    pub port: Option<String>,
    pub upload_token: Option<String>,
    pub max_file_size: Option<String>,
    pub blacklist: Option<String>,
    pub allowed_ext: Option<String>,
    pub root: Option<String>,
}

/// Where configuration is looked for: the values of `XDG_CONFIG_HOME`, `HOME` and
/// `USERPROFILE`.
#[derive(Clone, Debug, PartialEq, Eq)]
pub struct HomeEnv {
    pub xdg_config_home: Option<String>,
    pub home: Option<String>,
    pub userprofile: Option<String>,
}

/// The port the server listens on by default.
pub const DEFAULT_PORT: u16 = 3435;

/// The upload token that is used by default.
pub const DEFAULT_UPLOAD_TOKEN: &'static str = "abogoboga";

/// The largest upload that is taken by default: 4000 MiB.
pub const DEFAULT_MAX_FILE_SIZE: u64 = 4000 * 1024 * 1024;

/// A value with the white space around it removed, in lower case if asked for.
pub open spec fn normal(value: Seq<char>, lower: bool) -> Seq<char> {
    if lower {
        lowered(trimmed(value))
    } else {
        trimmed(value)
    }
}

/// The values of a list, each made normal, without the empty ones, each once, in the order
/// in which they first occur.
pub open spec fn cleaned(values: Seq<Seq<char>>, lower: bool) -> Seq<Seq<char>>
    decreases values.len(),
{
    if values.len() == 0 {
        Seq::empty()
    } else {
        let before = cleaned(values.drop_last(), lower);
        let item = normal(values.last(), lower);
        if item.len() == 0 || before.contains(item) {
            before
        } else {
            before.push(item)
        }
    }
}

/// The values of a list, each made normal, without the empty ones, each once.
pub fn clean_list(values: &Vec<String>, lower: bool) -> (list: Vec<String>)
    ensures
        texts(list@) == cleaned(texts(values@), lower),
        texts(list@).no_duplicates(),
{
    let mut list: Vec<String> = Vec::new();
    let mut i: usize = 0;
    assert(texts(values@).take(0) =~= Seq::<Seq<char>>::empty());
    assert(texts(list@) =~= Seq::<Seq<char>>::empty());
    while i < values.len()
        invariant
            i <= values@.len(),
            texts(list@) == cleaned(texts(values@).take(i as int), lower),
            texts(list@).no_duplicates(),
        decreases values@.len() - i,
    {
        let ghost before = texts(list@);
        proof {
            let next = texts(values@).take(i as int + 1);
            assert(next.drop_last() =~= texts(values@).take(i as int));
            assert(next.last() == values@[i as int]@);
        }
        let trimmed_value = trim(values[i].as_str());
        let item = if lower {
            string_of(&to_lowered(&chars_of(trimmed_value.as_str())))
        } else {
            trimmed_value
        };
        if item.as_str().unicode_len() > 0 && !holds(&list, item.as_str()) {
            let ghost text = item@;
            list.push(item);
            proof {
                assert(texts(list@) =~= before.push(text));
                assert forall|a: int, b: int|
                    0 <= a < before.len() + 1 && 0 <= b < before.len() + 1 && a != b implies before.push(
                    text,
                )[a] != before.push(text)[b] by {
                    if a < before.len() && b < before.len() {
                        assert(before[a] != before[b]);
                    } else if a < before.len() {
                        assert(before.contains(before[a]));
                    } else {
                        assert(before.contains(before[b]));
                    }
                }
            }
        }
        i += 1;
    }
    assert(texts(values@).take(i as int) =~= texts(values@));
    list
}

/// The names that are hidden by default.
pub fn default_blacklist() -> (list: Vec<String>)
    ensures
        texts(list@) == seq!["utils"@, "server.py"@],
{
    let mut list: Vec<String> = Vec::new();
    list.push(String::from_str("utils"));
    list.push(String::from_str("server.py"));
    assert(texts(list@) =~= seq!["utils"@, "server.py"@]);
    list
}

/// The extensions that are allowed by default.
pub open spec fn default_extensions() -> Seq<Seq<char>> {
    seq![
        "mp3"@,
        "wav"@,
        "aac"@,
        "ogg"@,
        "flac"@,
        "m4a"@,
        "mp4"@,
        "avi"@,
        "mov"@,
        "wmv"@,
        "mkv"@,
        "flv"@,
        "webm"@,
        "jpg"@,
        "jpeg"@,
        "png"@,
        "gif"@,
        "bmp"@,
        "tiff"@,
        "svg"@,
        "zip"@,
        "tar"@,
        "gz"@,
        "bz2"@,
        "7z"@,
        "rar"@,
        "exe"@,
        "bin"@,
        "dll"@,
        "deb"@,
        "rpm"@,
        "iso"@,
        "pdf"@,
        "doc"@,
        "docx"@,
        "xls"@,
        "xlsx"@,
        "ppt"@,
        "pptx"@,
        "txt"@,
        "csv"@,
        "odt"@,
        "rtf"@,
        "xml"@,
    ]
}

/// The extensions that are allowed by default: audio, video, images, archives, binaries
/// and documents.
pub fn default_allowed_extensions() -> (list: Vec<String>)
    ensures
        texts(list@) == default_extensions(),
{
    let mut list: Vec<String> = Vec::new();
    list.push(String::from_str("mp3"));
    list.push(String::from_str("wav"));
    list.push(String::from_str("aac"));
    list.push(String::from_str("ogg"));
    list.push(String::from_str("flac"));
    list.push(String::from_str("m4a"));
    list.push(String::from_str("mp4"));
    list.push(String::from_str("avi"));
    list.push(String::from_str("mov"));
    list.push(String::from_str("wmv"));
    list.push(String::from_str("mkv"));
    list.push(String::from_str("flv"));
    list.push(String::from_str("webm"));
    list.push(String::from_str("jpg"));
    list.push(String::from_str("jpeg"));
    list.push(String::from_str("png"));
    list.push(String::from_str("gif"));
    list.push(String::from_str("bmp"));
    list.push(String::from_str("tiff"));
    list.push(String::from_str("svg"));
    list.push(String::from_str("zip"));
    list.push(String::from_str("tar"));
    list.push(String::from_str("gz"));
    list.push(String::from_str("bz2"));
    list.push(String::from_str("7z"));
    list.push(String::from_str("rar"));
    list.push(String::from_str("exe"));
    list.push(String::from_str("bin"));
    list.push(String::from_str("dll"));
    list.push(String::from_str("deb"));
    list.push(String::from_str("rpm"));
    list.push(String::from_str("iso"));
    list.push(String::from_str("pdf"));
    list.push(String::from_str("doc"));
    list.push(String::from_str("docx"));
    list.push(String::from_str("xls"));
    list.push(String::from_str("xlsx"));
    list.push(String::from_str("ppt"));
    list.push(String::from_str("pptx"));
    list.push(String::from_str("txt"));
    list.push(String::from_str("csv"));
    list.push(String::from_str("odt"));
    list.push(String::from_str("rtf"));
    list.push(String::from_str("xml"));
    assert(texts(list@) =~= default_extensions());
    list
}

/// The settings that hold where nothing else is set.
pub fn default_values() -> (config: Config)
    ensures
        config.port == DEFAULT_PORT,
        config.upload_token@ == DEFAULT_UPLOAD_TOKEN@,
        config.max_file_size == DEFAULT_MAX_FILE_SIZE,
        texts(config.blacklisted_files@) == seq!["utils"@, "server.py"@],
        texts(config.allowed_extensions@) == default_extensions(),
        config.root_override is None,
        config.config_dir is None,
        config.root_source == RootSource::Default,
{
    Config {
        port: DEFAULT_PORT,
        upload_token: String::from_str(DEFAULT_UPLOAD_TOKEN),
        max_file_size: DEFAULT_MAX_FILE_SIZE,
        blacklisted_files: default_blacklist(),
        allowed_extensions: default_allowed_extensions(),
        root_override: None,
        config_dir: None,
        root_source: RootSource::Default,
    }
}

/// Whether a value is there and not blank.
pub open spec fn is_set(value: Option<String>) -> bool {
    value is Some && trimmed(value->0@).len() > 0
}

fn set(value: &Option<String>) -> (yes: bool)
    ensures
        yes == is_set(*value),
{
    match value {
        Some(text) => trim(text.as_str()).as_str().unicode_len() > 0,
        None => false,
    }
}

/// The directory in which the server keeps its own files where no configuration file was
/// read: `serve` below `XDG_CONFIG_HOME`, else `.config/serve` below `HOME`, else the same
/// below `USERPROFILE`, else `.serve`; a variable that is blank counts as not set.
pub open spec fn default_dir(env: HomeEnv) -> Seq<char> {
    if is_set(env.xdg_config_home) {
        path_join(env.xdg_config_home->0@, "serve"@)
    } else if is_set(env.home) {
        path_join(path_join(env.home->0@, ".config"@), "serve"@)
    } else if is_set(env.userprofile) {
        path_join(path_join(env.userprofile->0@, ".config"@), "serve"@)
    } else {
        ".serve"@
    }
}

fn below_config(home: &str) -> (dir: String)
    ensures
        dir@ == path_join(path_join(home@, ".config"@), "serve"@),
{
    let config = join_paths(home, ".config");
    join_paths(config.as_str(), "serve")
}

/// The directory in which the server keeps its own files where no configuration file was
/// read.
pub fn default_config_dir(env: &HomeEnv) -> (dir: String)
    ensures
        dir@ == default_dir(*env),
{
    if set(&env.xdg_config_home) {
        match &env.xdg_config_home {
            Some(xdg) => join_paths(xdg.as_str(), "serve"),
            None => String::from_str(".serve"),
        }
    } else if set(&env.home) {
        match &env.home {
            Some(home) => below_config(home.as_str()),
            None => String::from_str(".serve"),
        }
    } else if set(&env.userprofile) {
        match &env.userprofile {
            Some(home) => below_config(home.as_str()),
            None => String::from_str(".serve"),
        }
    } else {
        String::from_str(".serve")
    }
}

/// The port that a text sets, if it is a number that fits.
pub open spec fn port_of(text: Seq<char>) -> Option<u16> {
    match parsed_u64(text) {
        Some(n) => if n <= u16::MAX {
            Some(n as u16)
        } else {
            None
        },
        None => None,
    }
}

fn parse_port(text: &str) -> (port: Option<u16>)
    ensures
        port == port_of(text@),
{
    match parse_u64(text) {
        Some(n) => if n <= 65535 {
            Some(n as u16)
        } else {
            None
        },
        None => None,
    }
}

impl Config {
    /// The directory in which the server keeps its own files: the one of the configuration
    /// file that was read, else the default one.
    pub fn storage_dir(&self, env: &HomeEnv) -> (dir: String)
        ensures
            dir@ == match self.config_dir {
                Some(d) => d@,
                None => default_dir(*env),
            },
    {
        match &self.config_dir {
            Some(dir) => dir.clone(),
            None => default_config_dir(env),
        }
    }

    /// The port that the file and the environment leave: the environment's if it is a port,
    /// else the file's, else the default one.
    pub open spec fn port_for(file: Option<LoadedFile>, env: ServerEnv) -> u16 {
        if env.port is Some && port_of(env.port->0@) is Some {
            port_of(env.port->0@)->0
        } else if file is Some && file->0.config.port is Some {
            file->0.config.port->0
        } else {
            DEFAULT_PORT
        }
    }

    /// The largest upload that the file and the environment leave.
    pub open spec fn max_file_size_for(file: Option<LoadedFile>, env: ServerEnv) -> u64 {
        if env.max_file_size is Some && parsed_u64(env.max_file_size->0@) is Some {
            parsed_u64(env.max_file_size->0@)->0
        } else if file is Some && file->0.config.max_file_size is Some {
            file->0.config.max_file_size->0
        } else {
            DEFAULT_MAX_FILE_SIZE
        }
    }

    /// The upload token that the file and the environment leave; an empty one in the
    /// environment counts as not set.
    pub open spec fn token_for(file: Option<LoadedFile>, env: ServerEnv) -> Seq<char> {
        if env.upload_token is Some && env.upload_token->0@.len() > 0 {
            env.upload_token->0@
        } else if file is Some && file->0.config.upload_token is Some {
            file->0.config.upload_token->0@
        } else {
            DEFAULT_UPLOAD_TOKEN@
        }
    }

    /// The list that the environment sets, if it sets one that is not empty: its value cut
    /// at the commas and cleaned.
    pub open spec fn env_list(value: Option<String>, lower: bool) -> Option<Seq<Seq<char>>> {
        if value is Some && cleaned(segments(value->0@, ','), lower).len() > 0 {
            Some(cleaned(segments(value->0@, ','), lower))
        } else {
            None
        }
    }

    /// The list that a file sets, if it sets one that is not empty once it is cleaned.
    pub open spec fn file_list(value: Option<Vec<String>>, lower: bool) -> Option<Seq<Seq<char>>> {
        if value is Some && cleaned(texts(value->0@), lower).len() > 0 {
            Some(cleaned(texts(value->0@), lower))
        } else {
            None
        }
    }

    /// The root that the file and the environment leave, and where it was set.
    pub open spec fn root_for(file: Option<LoadedFile>, env: ServerEnv) -> (
        Option<Seq<char>>,
        RootSource,
    ) {
        if is_set(env.root) {
            (Some(env.root->0@), RootSource::EnvVar)
        } else if file is Some && is_set(file->0.config.root) {
            (Some(file->0.config.root->0@), RootSource::ConfigFile)
        } else {
            (None, RootSource::Default)
        }
    }

    /// The list that the file and the environment leave: the environment's if it sets one,
    /// else the file's if it sets one, else the default one.
    pub open spec fn list_for(
        file: Option<Vec<String>>,
        env: Option<String>,
        fallback: Seq<Seq<char>>,
        lower: bool,
    ) -> Seq<Seq<char>> {
        match Self::env_list(env, lower) {
            Some(list) => list,
            None => match Self::file_list(file, lower) {
                Some(list) => list,
                None => fallback,
            },
        }
    }

    /// The settings that the defaults, the configuration file that was read, if any, and
    /// the environment leave: the environment wins over the file, the file over the
    /// defaults. A value in the environment that cannot be read, and a list that is empty,
    /// set nothing.
    pub fn load(file: Option<&LoadedFile>, env: &ServerEnv) -> (config: Self)
        ensures
            ({
                let loaded = match file {
                    Some(f) => Some(*f),
                    None => None,
                };
                let file_blacklist = match loaded {
                    Some(f) => f.config.blacklisted_files,
                    None => None,
                };
                let file_extensions = match loaded {
                    Some(f) => f.config.allowed_extensions,
                    None => None,
                };
                &&& config.port == Self::port_for(loaded, *env)
                &&& config.max_file_size == Self::max_file_size_for(loaded, *env)
                &&& config.upload_token@ == Self::token_for(loaded, *env)
                &&& texts(config.blacklisted_files@) == Self::list_for(
                    file_blacklist,
                    env.blacklist,
                    seq!["utils"@, "server.py"@],
                    false,
                )
                &&& texts(config.allowed_extensions@) == Self::list_for(
                    file_extensions,
                    env.allowed_ext,
                    default_extensions(),
                    true,
                )
                &&& match config.root_override {
                    Some(root) => Self::root_for(loaded, *env).0 == Some(root@),
                    None => Self::root_for(loaded, *env).0 is None,
                }
                &&& config.root_source == Self::root_for(loaded, *env).1
                &&& match config.config_dir {
                    Some(dir) => loaded is Some && loaded->0.directory is Some && dir@
                        == loaded->0.directory->0@,
                    None => loaded is None || loaded->0.directory is None,
                }
            }),
    {
        let (root_override, root_source) = load_root(file, env);
        let file_blacklist = match file {
            Some(loaded) => loaded.config.blacklisted_files.as_ref(),
            None => None,
        };
        let file_extensions = match file {
            Some(loaded) => loaded.config.allowed_extensions.as_ref(),
            None => None,
        };
        let config_dir = match file {
            Some(loaded) => match &loaded.directory {
                Some(dir) => Some(dir.clone()),
                None => None,
            },
            None => None,
        };
        Config {
            port: load_port(file, env),
            upload_token: load_token(file, env),
            max_file_size: load_max_file_size(file, env),
            blacklisted_files: load_list(file_blacklist, &env.blacklist, default_blacklist(), false),
            allowed_extensions: load_list(
                file_extensions,
                &env.allowed_ext,
                default_allowed_extensions(),
                true,
            ),
            root_override,
            config_dir,
            root_source,
        }
    }
}

fn load_port(file: Option<&LoadedFile>, env: &ServerEnv) -> (port: u16)
    ensures
        port == Config::port_for(
            match file {
                Some(f) => Some(*f),
                None => None,
            },
            *env,
        ),
{
    match &env.port {
        Some(value) => match parse_port(value.as_str()) {
            Some(port) => {
                return port;
            },
            None => {},
        },
        None => {},
    }
    match file {
        Some(loaded) => match loaded.config.port {
            Some(port) => port,
            None => DEFAULT_PORT,
        },
        None => DEFAULT_PORT,
    }
}

fn load_max_file_size(file: Option<&LoadedFile>, env: &ServerEnv) -> (size: u64)
    ensures
        size == Config::max_file_size_for(
            match file {
                Some(f) => Some(*f),
                None => None,
            },
            *env,
        ),
{
    match &env.max_file_size {
        Some(value) => match parse_u64(value.as_str()) {
            Some(size) => {
                return size;
            },
            None => {},
        },
        None => {},
    }
    match file {
        Some(loaded) => match loaded.config.max_file_size {
            Some(size) => size,
            None => DEFAULT_MAX_FILE_SIZE,
        },
        None => DEFAULT_MAX_FILE_SIZE,
    }
}

fn load_token(file: Option<&LoadedFile>, env: &ServerEnv) -> (token: String)
    ensures
        token@ == Config::token_for(
            match file {
                Some(f) => Some(*f),
                None => None,
            },
            *env,
        ),
{
    match &env.upload_token {
        Some(value) => {
            if value.as_str().unicode_len() > 0 {
                return value.clone();
            }
        },
        None => {},
    }
    match file {
        Some(loaded) => match &loaded.config.upload_token {
            Some(token) => token.clone(),
            None => String::from_str(DEFAULT_UPLOAD_TOKEN),
        },
        None => String::from_str(DEFAULT_UPLOAD_TOKEN),
    }
}

fn load_root(file: Option<&LoadedFile>, env: &ServerEnv) -> (root: (Option<String>, RootSource))
    ensures
        ({
            let expected = Config::root_for(
                match file {
                    Some(f) => Some(*f),
                    None => None,
                },
                *env,
            );
            &&& root.1 == expected.1
            &&& match root.0 {
                Some(r) => expected.0 == Some(r@),
                None => expected.0 is None,
            }
        }),
{
    if set(&env.root) {
        match &env.root {
            Some(root) => {
                return (Some(root.clone()), RootSource::EnvVar);
            },
            None => {},
        }
    }
    match file {
        Some(loaded) => {
            if set(&loaded.config.root) {
                match &loaded.config.root {
                    Some(root) => {
                        return (Some(root.clone()), RootSource::ConfigFile);
                    },
                    None => {},
                }
            }
        },
        None => {},
    }
    (None, RootSource::Default)
}

fn load_list(
    file: Option<&Vec<String>>,
    env: &Option<String>,
    fallback: Vec<String>,
    lower: bool,
) -> (list: Vec<String>)
    ensures
        texts(list@) == Config::list_for(
            match file {
                Some(f) => Some(*f),
                None => None,
            },
            *env,
            texts(fallback@),
            lower,
        ),
{
    match env {
        Some(value) => {
            let list = clean_list(&split_segments(value.as_str(), ','), lower);
            if list.len() > 0 {
                return list;
            }
        },
        None => {},
    }
    match file {
        Some(values) => {
            let list = clean_list(values, lower);
            if list.len() > 0 {
                return list;
            }
        },
        None => {},
    }
    fallback
}

/// The files in which the configuration is looked for where none is given, in order:
/// `config.toml` here, beside the executable, below `XDG_CONFIG_HOME`, and below `HOME` in
/// `.config/serve` and in `.serve`.
pub open spec fn default_candidates(executable_dir: Option<Seq<char>>, env: HomeEnv) -> Seq<
    Seq<char>,
> {
    let here = seq!["config.toml"@];
    let beside = match executable_dir {
        Some(dir) => seq![path_join(dir, "config.toml"@)],
        None => Seq::empty(),
    };
    let xdg = if is_set(env.xdg_config_home) {
        seq![path_join(path_join(env.xdg_config_home->0@, "serve"@), "config.toml"@)]
    } else {
        Seq::empty()
    };
    let home = if is_set(env.home) {
        seq![
            path_join(path_join(path_join(env.home->0@, ".config"@), "serve"@), "config.toml"@),
            path_join(path_join(env.home->0@, ".serve"@), "config.toml"@),
        ]
    } else {
        Seq::empty()
    };
    here + beside + xdg + home
}

/// The files in which the configuration is looked for, in order: the one given and no
/// other; else the default candidates.
pub fn resolve_config_candidates(
    config_path: Option<&str>,
    executable_dir: Option<&str>,
    env: &HomeEnv,
) -> (candidates: Vec<String>)
    ensures
        texts(candidates@) == match config_path {
            Some(path) => seq![path@],
            None => default_candidates(
                match executable_dir {
                    Some(dir) => Some(dir@),
                    None => None,
                },
                *env,
            ),
        },
{
    let mut candidates: Vec<String> = Vec::new();
    match config_path {
        Some(path) => {
            candidates.push(String::from_str(path));
            assert(texts(candidates@) =~= seq![path@]);
            return candidates;
        },
        None => {},
    }
    candidates.push(String::from_str("config.toml"));
    let ghost here = texts(candidates@);
    assert(here =~= seq!["config.toml"@]);
    match executable_dir {
        Some(dir) => {
            candidates.push(join_paths(dir, "config.toml"));
        },
        None => {},
    }
    let ghost beside = texts(candidates@);
    assert(beside =~= here + match executable_dir {
        Some(dir) => seq![path_join(dir@, "config.toml"@)],
        None => Seq::empty(),
    });
    if set(&env.xdg_config_home) {
        match &env.xdg_config_home {
            Some(xdg) => {
                let dir = join_paths(xdg.as_str(), "serve");
                candidates.push(join_paths(dir.as_str(), "config.toml"));
            },
            None => {},
        }
    }
    let ghost xdg = texts(candidates@);
    assert(xdg =~= beside + if is_set(env.xdg_config_home) {
        seq![path_join(path_join(env.xdg_config_home->0@, "serve"@), "config.toml"@)]
    } else {
        Seq::empty()
    });
    if set(&env.home) {
        match &env.home {
            Some(home) => {
                let dir = below_config(home.as_str());
                candidates.push(join_paths(dir.as_str(), "config.toml"));
                let plain = join_paths(home.as_str(), ".serve");
                candidates.push(join_paths(plain.as_str(), "config.toml"));
            },
            None => {},
        }
    }
    assert(texts(candidates@) =~= xdg + if is_set(env.home) {
        seq![
            path_join(path_join(path_join(env.home->0@, ".config"@), "serve"@), "config.toml"@),
            path_join(path_join(env.home->0@, ".serve"@), "config.toml"@),
        ]
    } else {
        Seq::empty()
    });
    candidates
}

} // verus!
