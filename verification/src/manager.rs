//! Where the declarations live: the dotfiles directory, the file in it that
//! holds the table, and the state file that points to the directory.
//!
//! Nothing here reads or writes a file. What is to be written is handed out
//! as a `FileWrite`; what was read is taken as text.

use vstd::prelude::*;
use crate::config::Config;
use crate::document::{
    contains_table, document_strings, document_tables, document_text, has_root_table,
    parse_document, put_string, put_table, render, strings_without, tables_with, toml_contents,
    under,
};
use crate::env::Env;
use crate::path::{adjoin, adjoined, components, home, split_path};
use crate::reconcile::{planned, settled, Reconciler};
use crate::symlink::{asks, Request, Stage, Symlink};
use crate::text::{chars_of, same};

verus! {

/// Why the declarations could not be found, read or changed.
#[derive(Debug, Clone, Copy, PartialEq, Eq, Structural)]
pub enum ConfigError {
    /// Neither a state directory nor a home directory is set, so there is
    /// no place for the state file.
    NoStateHome,
    /// The state file names no directory.
    NoStateFile,
    /// The directory that the state file names does not exist.
    MissingRoot,
    /// The file of declarations is no TOML document, or has no table of
    /// links.
    ConfigMalformed,
    /// No declarations were loaded.
    NotLoaded,
    /// No profile of that name is declared.
    UnknownProfile,
    /// What is to be taken in has no name of its own and none was given.
    Unnamed,
    /// What was asked for is not available.
    NotImplemented,
}

/// A file to be written: all of `content` to `path`, in place of what the
/// file held.
#[derive(Debug, Clone, PartialEq, Eq)]
pub struct FileWrite {
    pub path: String,
    pub content: String,
}

/// The name of the file of declarations in the dotfiles directory.
pub const CONFIG_FILE: &'static str = "rotten.toml";

/// The declarations that a new dotfiles directory begins with: one profile
/// and one link, switched off, that show what can be written.
pub const EMPTY_CONFIG: &'static str = r#"
[profiles]
example = ['nvim']

[links.nvim]
disabled = true # You can disable also some links
source = "nvim" # path in rotten folder what is linked
target = "$HOME/.config/nvim" # where source is linked
"#;

/// The text of the declarations that a new dotfiles directory begins with.
pub fn generate_empty() -> (text: &'static str)
    ensures
        text@ == EMPTY_CONFIG@,
{
    EMPTY_CONFIG
}

/// Where the first line of a text ends: at its first line feed, or at its
/// end where it has none.
pub open spec fn line_end(data: Seq<char>) -> int
    decreases data.len(),
{
    if data.len() == 0 || data[0] == '\n' {
        0
    } else {
        1 + line_end(data.drop_first())
    }
}

/// The first line of a text, without the line feed that ends it and without
/// a carriage return just before that line feed. A text without characters
/// has no line.
pub open spec fn first_line(data: Seq<char>) -> Option<Seq<char>> {
    let end = line_end(data);
    if data.len() == 0 {
        None
    } else if 0 < end < data.len() && data[end - 1] == '\r' {
        Some(data.take(end - 1))
    } else {
        Some(data.take(end))
    }
}

/// The line of a text ends where the line of what is left of it ends.
proof fn lemma_line_end_skip(data: Seq<char>, upto: int)
    requires
        0 <= upto <= data.len(),
        forall|j: int| 0 <= j < upto ==> data[j] != '\n',
    ensures
        line_end(data) == upto + line_end(data.skip(upto)),
    decreases upto,
{
    if upto == 0 {
        assert(data.skip(0) =~= data);
    } else {
        assert(data.drop_first().skip(upto - 1) =~= data.skip(upto));
        lemma_line_end_skip(data.drop_first(), upto - 1);
    }
}

/// The first line of a text, as `first_line` defines it.
pub fn read_first_line(data: &str) -> (line: Option<String>)
    ensures
        match line {
            Some(text) => first_line(data@) == Some(text@),
            None => first_line(data@) is None,
        },
{
    let chars = chars_of(data);
    let n = chars.len();
    if n == 0 {
        return None;
    }
    let mut end: usize = 0;
    while end < n && chars[end] != '\n'
        invariant
            end <= n,
            n == data@.len(),
            chars@ == data@,
            forall|j: int| 0 <= j < end ==> data@[j] != '\n',
        decreases n - end,
    {
        end += 1;
    }
    proof {
        lemma_line_end_skip(data@, end as int);
        if end < n {
            assert(data@.skip(end as int)[0] == '\n');
        }
    }
    let stop = if 0 < end && end < n && chars[end - 1] == '\r' {
        end - 1
    } else {
        end
    };
    assert(data@.take(stop as int) =~= data@.subrange(0, stop as int));
    Some(data.substring_char(0, stop).to_owned())
}

/// The name of the variable that names the state directory.
pub open spec fn state_home() -> Seq<char> {
    "XSD_STATE_HOME"@
}

/// The path of the state file: `rotten` in the state directory, which is
/// the one that the environment names or else `.local/state` in the home
/// directory. There is none where the environment sets neither.
pub open spec fn state_path(env: Map<Seq<char>, Seq<char>>) -> Option<Seq<char>> {
    if env.contains_key(state_home()) {
        Some(adjoined(env[state_home()], "rotten"@))
    } else if env.contains_key(home()) {
        Some(adjoined(env[home()] + "/.local/state"@, "rotten"@))
    } else {
        None
    }
}

/// The path of the state file in `env`, as `state_path` defines it.
pub fn get_state_path(env: &Env) -> (r: Result<String, ConfigError>)
    ensures
        match r {
            Ok(path) => state_path(env@) == Some(path@),
            Err(e) => state_path(env@) is None && e == ConfigError::NoStateHome,
        },
{
    match env.get("XSD_STATE_HOME") {
        Some(directory) => Ok(adjoin(directory.as_str(), "rotten")),
        None => match env.get("HOME") {
            Some(dir) => {
                let mut directory = dir;
                directory.append("/.local/state");
                Ok(adjoin(directory.as_str(), "rotten"))
            },
            None => Err(ConfigError::NoStateHome),
        },
    }
}

/// The name of the table of the document in which the links are declared.
pub open spec fn links_key() -> Seq<char> {
    "links"@
}

/// Where the link `name` stands in the document.
pub open spec fn link_at(name: Seq<char>) -> Seq<Seq<char>> {
    seq![links_key(), name]
}

/// The strings of a document once `link` is declared in it under `name`:
/// whatever stood under that name is gone, and in its place stand the source
/// of the link under `source` and its target under `target`.
pub open spec fn strings_with_link(
    strings: Map<Seq<Seq<char>>, Seq<char>>,
    name: Seq<char>,
    link: Symlink,
) -> Map<Seq<Seq<char>>, Seq<char>> {
    strings_without(strings, link_at(name)).insert(
        seq![links_key(), name, "source"@],
        link.from@,
    ).insert(seq![links_key(), name, "target"@], link.to@)
}

/// Whether a document can hold declarations at all: whether its root is a
/// table, as that of every document is that was parsed from text.
pub open spec fn rooted(document: toml_edit::Document) -> bool {
    document_tables(document).contains(Seq::empty())
}

/// Declares `link` under `name` in a document.
///
/// The document must have a table `links` in a root that is a table, else
/// it is malformed and stays as it is. In that table the entry `name`
/// becomes a table that holds the source and the target of the link and
/// nothing else; all other entries of the document stay as they are.
pub fn insert_link(document: &mut toml_edit::Document, name: &str, link: &Symlink) -> (r: Result<
    (),
    ConfigError,
>)
    ensures
        match r {
            Ok(_) => {
                &&& rooted(*old(document))
                &&& document_tables(*old(document)).contains(seq![links_key()])
                &&& rooted(*final(document))
                &&& document_tables(*final(document)) == tables_with(
                    document_tables(*old(document)),
                    link_at(name@),
                )
                &&& document_strings(*final(document)) == strings_with_link(
                    document_strings(*old(document)),
                    name@,
                    *link,
                )
            },
            Err(e) => {
                &&& e == ConfigError::ConfigMalformed
                &&& !(rooted(*old(document)) && document_tables(*old(document)).contains(
                    seq![links_key()],
                ))
                &&& *final(document) == *old(document)
            },
        },
{
    if !has_root_table(document) {
        return Err(ConfigError::ConfigMalformed);
    }
    if !contains_table(document, "links") {
        return Err(ConfigError::ConfigMalformed);
    }
    let ghost tables = document_tables(*document);
    let ghost strings = document_strings(*document);
    let ghost at = link_at(name@);
    let ghost source_at = seq![links_key(), name@, "source"@];
    let ghost target_at = seq![links_key(), name@, "target"@];
    put_table(document, "links", name);
    assert(document_tables(*document).contains(at)) by {
        assert(under(at, at));
    }
    assert(document_tables(*document).contains(seq![links_key()])) by {
        assert(!under(at, seq![links_key()]));
    }
    put_string(document, "links", name, "source", link.from.as_str());
    assert(document_tables(*document).contains(at)) by {
        assert(!under(source_at, at));
    }
    assert(document_tables(*document).contains(seq![links_key()])) by {
        assert(!under(source_at, seq![links_key()]));
    }
    put_string(document, "links", name, "target", link.to.as_str());
    proof {
        reveal_strlit("source");
        reveal_strlit("target");
        assert("source"@[0] != "target"@[0]);
        assert(source_at[2] != target_at[2]);
        assert(!under(target_at, source_at));
        assert(!under(source_at, target_at));
        assert forall|path: Seq<Seq<char>>| under(source_at, path) implies under(at, path) by {
            assert(path.subrange(0, 2) =~= path.subrange(0, 3).subrange(0, 2));
            assert(at =~= source_at.subrange(0, 2));
        }
        assert forall|path: Seq<Seq<char>>| under(target_at, path) implies under(at, path) by {
            assert(path.subrange(0, 2) =~= path.subrange(0, 3).subrange(0, 2));
            assert(at =~= target_at.subrange(0, 2));
        }
        assert(document_tables(*document) =~= tables_with(tables, at));
        assert(document_strings(*document) =~= strings_with_link(strings, name@, *link));
        assert(!under(at, Seq::<Seq<char>>::empty()));
    }
    Ok(())
}

/// The dotfiles directory in use and what is known of it.
#[derive(Debug, Clone, PartialEq, Eq)]
pub struct ConfigManager {
    /// The path of the state file, which names the dotfiles directory.
    pub state_path: String,
    /// The path of the dotfiles directory.
    pub config_root: String,
    /// The declarations, once they are loaded.
    pub config: Option<Config>,
}

/// Whether a reconciler and its first request are what beginning the work
/// gives, with these settings: the names are planned from the declarations
/// and the filter, those at the front that need no look at the disk have
/// their rows, and the request is what the run for the next name asks for.
pub open spec fn begun(
    reconciler: Reconciler,
    next: Option<Request>,
    config: Config,
    filter: Option<Seq<String>>,
    root: Seq<char>,
    env: Env,
    overwrite: bool,
) -> bool {
    &&& reconciler.rows@ == planned(config, filter)
    &&& reconciler.root@ == root
    &&& reconciler.env == env
    &&& reconciler.overwrite == overwrite
    &&& reconciler.report@ == settled(reconciler.rows@, 0, env@)
    &&& reconciler.wf()
    &&& match reconciler.run {
        Some(run) => run.stage == Stage::Probing && asks(run.stage, run.source@, run.target@, next),
        None => next is None,
    }
}

/// The names of the links of the profiles, one profile after the other, or
/// nothing where one of the profiles is not declared.
pub open spec fn gathered(config: Config, profiles: Seq<String>) -> Option<Seq<String>>
    decreases profiles.len(),
{
    if profiles.len() == 0 {
        Some(Seq::empty())
    } else {
        match (gathered(config, profiles.drop_last()), config.members(profiles.last()@)) {
            (Some(before), Some(names)) => Some(before + names@),
            _ => None,
        }
    }
}

/// Once a profile is found not to be declared, no longer list of profiles
/// gathers anything.
proof fn lemma_gathered_fails(config: Config, profiles: Seq<String>, upto: int)
    requires
        0 <= upto <= profiles.len(),
        gathered(config, profiles.take(upto)) is None,
    ensures
        gathered(config, profiles) is None,
    decreases profiles.len() - upto,
{
    if upto == profiles.len() {
        assert(profiles.take(upto) =~= profiles);
    } else {
        assert(profiles.drop_last().take(upto) =~= profiles.take(upto));
        lemma_gathered_fails(config, profiles.drop_last(), upto);
    }
}

/// The filter that a list of profiles stands for: none where no profile is
/// given, so that every link is chosen, else the names that the profiles
/// gather.
pub open spec fn filter_of(config: Config, profiles: Seq<String>) -> Option<Seq<String>> {
    if profiles.len() == 0 {
        None
    } else {
        gathered(config, profiles)
    }
}

/// Whether a component can name an entry of the dotfiles directory: it is
/// neither the root nor one of the dots that stand for "here" and "above".
pub open spec fn is_entry_name(component: Seq<char>) -> bool {
    component != "/"@ && component != "."@ && component != ".."@
}

/// The name that a path ends in, if it ends in one.
pub open spec fn last_name(path: Seq<char>) -> Option<Seq<char>> {
    let parts = components(path);
    if parts.len() > 0 && is_entry_name(parts.last()) {
        Some(parts.last())
    } else {
        None
    }
}

/// What taking something into the dotfiles directory comes to.
#[derive(Debug, Clone, PartialEq, Eq)]
pub struct Addition {
    /// The name under which the link is declared.
    pub name: String,
    /// The link to declare.
    pub link: Symlink,
    /// Where in the dotfiles directory the copy goes.
    pub destination: String,
}

impl ConfigManager {
    /// The path of the file of declarations.
    pub open spec fn config_path(&self) -> Seq<char> {
        adjoined(self.config_root@, CONFIG_FILE@)
    }

    /// Takes `config_path` as the dotfiles directory.
    ///
    /// The state file is to be written, so that it names the directory;
    /// with `overwrite` the file of declarations is to be written too, with
    /// the text that a new directory begins with. Fails where the
    /// environment gives no place for the state file; then nothing is to be
    /// written.
    pub fn try_new(config_path: &str, overwrite: bool, env: &Env) -> (r: Result<
        (ConfigManager, Vec<FileWrite>),
        ConfigError,
    >)
        ensures
            match r {
                Ok((manager, writes)) => {
                    &&& state_path(env@) == Some(manager.state_path@)
                    &&& manager.config_root@ == config_path@
                    &&& manager.config is None
                    &&& writes.len() == if overwrite {
                        2nat
                    } else {
                        1nat
                    }
                    &&& writes[0].path@ == manager.state_path@
                    &&& writes[0].content@ == config_path@
                    &&& overwrite ==> writes[1].path@ == manager.config_path() && writes[1].content@
                        == EMPTY_CONFIG@
                },
                Err(e) => state_path(env@) is None && e == ConfigError::NoStateHome,
            },
    {
        let state_path = match get_state_path(env) {
            Ok(path) => path,
            Err(e) => {
                return Err(e);
            },
        };
        let mut writes: Vec<FileWrite> = Vec::new();
        writes.push(FileWrite { path: state_path.clone(), content: config_path.to_owned() });
        let manager = ConfigManager { state_path, config_root: config_path.to_owned(), config: None };
        if overwrite {
            writes.push(manager.setup_config());
        }
        Ok((manager, writes))
    }

    /// Takes what was read as the dotfiles directory in use: the state file
    /// at `state_path` held `state_data`, the directory that it names exists
    /// or not, and `config` was loaded from the file of declarations in it.
    /// Fails as `get_config_root` does.
    pub fn try_load(state_path: String, state_data: &str, root_exists: bool, config: Config) -> (r:
        Result<ConfigManager, ConfigError>)
        ensures
            match r {
                Ok(manager) => {
                    &&& root_exists
                    &&& first_line(state_data@) == Some(manager.config_root@)
                    &&& manager.state_path == state_path
                    &&& manager.config == Some(config)
                },
                Err(e) => match first_line(state_data@) {
                    None => e == ConfigError::NoStateFile,
                    Some(_) => !root_exists && e == ConfigError::MissingRoot,
                },
            },
    {
        match ConfigManager::get_config_root(state_data, root_exists) {
            Ok(config_root) => Ok(ConfigManager { state_path, config_root, config: Some(config) }),
            Err(e) => Err(e),
        }
    }

    /// The file of declarations of a new dotfiles directory, to be written.
    pub fn setup_config(&self) -> (write: FileWrite)
        ensures
            write.path@ == self.config_path(),
            write.content@ == EMPTY_CONFIG@,
    {
        FileWrite {
            path: adjoin(self.config_root.as_str(), CONFIG_FILE),
            content: generate_empty().to_owned(),
        }
    }

    /// The dotfiles directory that a state file names: its first line. Fails
    /// with `NoStateFile` where the file holds no line, and with
    /// `MissingRoot` where the directory that the line names was found not
    /// to exist.
    pub fn get_config_root(state_data: &str, root_exists: bool) -> (r: Result<String, ConfigError>)
        ensures
            match r {
                Ok(root) => root_exists && first_line(state_data@) == Some(root@),
                Err(e) => match first_line(state_data@) {
                    None => e == ConfigError::NoStateFile,
                    Some(_) => !root_exists && e == ConfigError::MissingRoot,
                },
            },
    {
        match read_first_line(state_data) {
            Some(line) => if root_exists {
                Ok(line)
            } else {
                Err(ConfigError::MissingRoot)
            },
            None => Err(ConfigError::NoStateFile),
        }
    }

    /// The file of declarations, to be written with the text of `config`.
    /// A document has a text only if its root is a table, as that of every
    /// document is that was parsed; one whose root is none is malformed.
    pub fn write_config(&self, config: &toml_edit::Document) -> (r: Result<FileWrite, ConfigError>)
        ensures
            match r {
                Ok(write) => {
                    &&& rooted(*config)
                    &&& write.path@ == self.config_path()
                    &&& write.content@ == document_text(*config)
                },
                Err(e) => !rooted(*config) && e == ConfigError::ConfigMalformed,
            },
    {
        if !has_root_table(config) {
            return Err(ConfigError::ConfigMalformed);
        }
        Ok(
            FileWrite {
                path: adjoin(self.config_root.as_str(), CONFIG_FILE),
                content: render(config),
            },
        )
    }

    /// Declares `link` under `name` in the file of declarations, of which
    /// `data` is the text, and gives the file to be written.
    ///
    /// Fails with `ConfigMalformed` where `data` is no TOML document or the
    /// document has no table `links`. Else the text to be written is that of
    /// a document that holds what `data` holds, but for the link, which is
    /// declared in it as `insert_link` says.
    pub fn add_link(&self, data: &str, name: String, link: Symlink) -> (r: Result<
        FileWrite,
        ConfigError,
    >)
        ensures
            match r {
                Ok(write) => {
                    &&& toml_contents(data@) matches Some((tables, strings))
                    &&& tables.contains(seq![links_key()])
                    &&& write.path@ == self.config_path()
                    &&& exists|document: toml_edit::Document|
                        {
                            &&& #[trigger] document_text(document) == write.content@
                            &&& rooted(document)
                            &&& document_tables(document) == tables_with(tables, link_at(name@))
                            &&& document_strings(document) == strings_with_link(
                                strings,
                                name@,
                                link,
                            )
                        }
                },
                Err(e) => {
                    &&& e == ConfigError::ConfigMalformed
                    &&& toml_contents(data@) matches Some((tables, strings)) ==> !tables.contains(
                        seq![links_key()],
                    )
                },
            },
    {
        let mut document = match parse_document(data) {
            Ok(document) => document,
            Err(_) => {
                return Err(ConfigError::ConfigMalformed);
            },
        };
        match insert_link(&mut document, name.as_str(), &link) {
            Ok(_) => match self.write_config(&document) {
                Ok(write) => {
                    assert(document_text(document) == write.content@);
                    Ok(write)
                },
                Err(e) => Err(e),
            },
            Err(e) => Err(e),
        }
    }

    /// Begins the work on the links of the profile `profile`, in the order
    /// in which the profile names them.
    ///
    /// Fails with `NotLoaded` where no declarations are loaded and with
    /// `UnknownProfile` where they declare no profile of that name. A name
    /// in the profile under which no link is declared is no failure here: it
    /// gets a row in the report.
    pub fn symlink_profile(&self, overwrite: bool, profile: String, env: Env) -> (r: Result<
        (Reconciler, Option<Request>),
        ConfigError,
    >)
        ensures
            match r {
                Ok((reconciler, next)) => self.config matches Some(config) && config.members(
                    profile@,
                ) matches Some(names) && begun(
                    reconciler,
                    next,
                    config,
                    Some(names@),
                    self.config_root@,
                    env,
                    overwrite,
                ),
                Err(e) => match self.config {
                    None => e == ConfigError::NotLoaded,
                    Some(config) => config.members(profile@) is None && e
                        == ConfigError::UnknownProfile,
                },
            },
    {
        match &self.config {
            None => Err(ConfigError::NotLoaded),
            Some(config) => match config.profile(profile.as_str()) {
                None => Err(ConfigError::UnknownProfile),
                Some(names) => Ok(
                    Reconciler::start(config, Some(names), self.config_root.clone(), env, overwrite),
                ),
            },
        }
    }

    /// Begins the work on every declared link, in the order of the table.
    /// Fails with `NotLoaded` where no declarations are loaded.
    pub fn symlink_all(&self, overwrite: bool, env: Env) -> (r: Result<
        (Reconciler, Option<Request>),
        ConfigError,
    >)
        ensures
            match r {
                Ok((reconciler, next)) => self.config matches Some(config) && begun(
                    reconciler,
                    next,
                    config,
                    None,
                    self.config_root@,
                    env,
                    overwrite,
                ),
                Err(e) => self.config is None && e == ConfigError::NotLoaded,
            },
    {
        match &self.config {
            None => Err(ConfigError::NotLoaded),
            Some(config) => Ok(
                Reconciler::start(config, None, self.config_root.clone(), env, overwrite),
            ),
        }
    }

    /// Begins the work on the links of several profiles, or on every
    /// declared link where no profile is given.
    ///
    /// The filter is `filter_of` the profiles: the names of the first
    /// profile, then those of the second, and so on. Fails with `NotLoaded`
    /// where no declarations are loaded and with `UnknownProfile` where one
    /// of the profiles is not declared; then no work is begun at all.
    pub fn symlink_profiles(&self, overwrite: bool, profiles: &Vec<String>, env: Env) -> (r: Result<
        (Reconciler, Option<Request>),
        ConfigError,
    >)
        ensures
            match r {
                Ok((reconciler, next)) => self.config matches Some(config) && (profiles.len() > 0
                    ==> gathered(config, profiles@) is Some) && begun(
                    reconciler,
                    next,
                    config,
                    filter_of(config, profiles@),
                    self.config_root@,
                    env,
                    overwrite,
                ),
                Err(e) => match self.config {
                    None => e == ConfigError::NotLoaded,
                    Some(config) => profiles.len() > 0 && gathered(config, profiles@) is None && e
                        == ConfigError::UnknownProfile,
                },
            },
    {
        let config = match &self.config {
            None => {
                return Err(ConfigError::NotLoaded);
            },
            Some(config) => config,
        };
        if profiles.len() == 0 {
            return Ok(Reconciler::start(config, None, self.config_root.clone(), env, overwrite));
        }
        let mut names: Vec<String> = Vec::new();
        let mut i: usize = 0;
        assert(profiles@.take(0) =~= Seq::<String>::empty());
        while i < profiles.len()
            invariant
                i <= profiles.len(),
                self.config == Some(*config),
                gathered(*config, profiles@.take(i as int)) == Some(names@),
            decreases profiles.len() - i,
        {
            assert(profiles@.take(i + 1).drop_last() =~= profiles@.take(i as int));
            match config.profile(profiles[i].as_str()) {
                None => {
                    proof {
                        lemma_gathered_fails(*config, profiles@, i + 1);
                    }
                    return Err(ConfigError::UnknownProfile);
                },
                Some(members) => {
                    let ghost before = names@;
                    let mut k: usize = 0;
                    while k < members.len()
                        invariant
                            k <= members.len(),
                            names@ == before + members@.take(k as int),
                        decreases members.len() - k,
                    {
                        names.push(members[k].clone());
                        k += 1;
                    }
                    assert(members@.take(members.len() as int) =~= members@);
                },
            }
            i += 1;
        }
        assert(profiles@.take(profiles.len() as int) =~= profiles@);
        Ok(Reconciler::start(config, Some(&names), self.config_root.clone(), env, overwrite))
    }

    /// Plans taking `source` into the dotfiles directory with a link that
    /// belongs at `target`.
    ///
    /// The link is declared under `name`, or under the name that `source`
    /// ends in where none is given; it fails with `Unnamed` where `source`
    /// ends in none either. The copy goes to that name in the dotfiles
    /// directory, and the link points to it.
    pub fn plan_add(&self, source: &str, target: &str, name: Option<String>) -> (r: Result<
        Addition,
        ConfigError,
    >)
        ensures
            match r {
                Ok(addition) => {
                    &&& match name {
                        Some(given) => addition.name == given,
                        None => last_name(source@) == Some(addition.name@),
                    }
                    &&& addition.link.from@ == addition.name@
                    &&& addition.link.to@ == target@
                    &&& addition.destination@ == adjoined(self.config_root@, addition.name@)
                },
                Err(e) => name is None && last_name(source@) is None && e == ConfigError::Unnamed,
            },
    {
        let name = match name {
            Some(given) => given,
            None => {
                let mut parts = split_path(source);
                match parts.pop() {
                    None => {
                        return Err(ConfigError::Unnamed);
                    },
                    Some(last) => {
                        assert(last@ == components(source@).last());
                        if same(last.as_str(), "/") || same(last.as_str(), ".") || same(
                            last.as_str(),
                            "..",
                        ) {
                            return Err(ConfigError::Unnamed);
                        }
                        last
                    },
                }
            },
        };
        let destination = adjoin(self.config_root.as_str(), name.as_str());
        let link = Symlink { from: name.clone(), to: target.to_owned() };
        Ok(Addition { name, link, destination })
    }

    /// Takes the links away. This is not available: it fails with
    /// `NotImplemented` and changes nothing.
    pub fn unlink() -> (r: Result<(), ConfigError>)
        ensures
            r == Err::<(), ConfigError>(ConfigError::NotImplemented),
    {
        Err(ConfigError::NotImplemented)
    }
}

} // verus!
