//! Command-line settings, saved profiles and how they combine: options
//! given on the command line win over the selected profile, which wins
//! over the built-in defaults.

use vstd::prelude::*;
use crate::text::{
    chars_of, lemma_text_lt_total, lemma_text_lt_transitive, push_str, same_text,
    text_less, text_lt,
};

verus! {

/// The later value where it is set, else the earlier one.
pub open spec fn pick<T>(earlier: Option<T>, later: Option<T>) -> Option<T> {
    if later is Some {
        later
    } else {
        earlier
    }
}

/// A copy of an optional string.
pub fn clone_text(o: &Option<String>) -> (r: Option<String>)
    ensures
        r == *o,
{
    match o {
        Some(s) => Some(s.clone()),
        None => None,
    }
}

/// Replaces an optional string with `later` where that is set.
pub fn set_text(field: &mut Option<String>, later: &Option<String>)
    ensures
        *final(field) == pick(*old(field), *later),
{
    if later.is_some() {
        *field = clone_text(later);
    }
}

/// Replaces an optional value with `later` where that is set.
pub fn set_value<T: Copy>(field: &mut Option<T>, later: Option<T>)
    ensures
        *final(field) == pick(*old(field), later),
{
    if later.is_some() {
        *field = later;
    }
}

/// The settings that a profile can hold; an unset field leaves the
/// decision to the next level.
#[derive(Debug, PartialEq, Eq)]
pub struct ProfileConfig {
    pub description: Option<String>,
    pub output_path: Option<String>,
    pub no_ignore: Option<bool>,
    pub includes: Option<String>,
    pub exclude: Option<String>,
    pub tree_include: Option<String>,
    pub tree_exclude: Option<String>,
    pub no_tree: Option<bool>,
    pub tree_no_ignore: Option<bool>,
    pub max_size: Option<usize>,
    pub no_blacklist: Option<bool>,
}

impl Default for ProfileConfig {
    fn default() -> (r: ProfileConfig)
        ensures
            r == ProfileConfig::empty(),
    {
        ProfileConfig {
            description: None,
            output_path: None,
            no_ignore: None,
            includes: None,
            exclude: None,
            tree_include: None,
            tree_exclude: None,
            no_tree: None,
            tree_no_ignore: None,
            max_size: None,
            no_blacklist: None,
        }
    }
}

impl ProfileConfig {
    /// The profile with no field set.
    pub open spec fn empty() -> ProfileConfig {
        ProfileConfig {
            description: None,
            output_path: None,
            no_ignore: None,
            includes: None,
            exclude: None,
            tree_include: None,
            tree_exclude: None,
            no_tree: None,
            tree_no_ignore: None,
            max_size: None,
            no_blacklist: None,
        }
    }

    /// `self` with every field that `update` sets taken from `update`.
    pub open spec fn merged(self, update: ProfileConfig) -> ProfileConfig {
        ProfileConfig {
            description: pick(self.description, update.description),
            output_path: pick(self.output_path, update.output_path),
            no_ignore: pick(self.no_ignore, update.no_ignore),
            includes: pick(self.includes, update.includes),
            exclude: pick(self.exclude, update.exclude),
            tree_include: pick(self.tree_include, update.tree_include),
            tree_exclude: pick(self.tree_exclude, update.tree_exclude),
            no_tree: pick(self.no_tree, update.no_tree),
            tree_no_ignore: pick(self.tree_no_ignore, update.tree_no_ignore),
            max_size: pick(self.max_size, update.max_size),
            no_blacklist: pick(self.no_blacklist, update.no_blacklist),
        }
    }

    /// A copy of the profile.
    pub fn duplicate(&self) -> (r: ProfileConfig)
        ensures
            r == *self,
    {
        ProfileConfig {
            description: clone_text(&self.description),
            output_path: clone_text(&self.output_path),
            no_ignore: self.no_ignore,
            includes: clone_text(&self.includes),
            exclude: clone_text(&self.exclude),
            tree_include: clone_text(&self.tree_include),
            tree_exclude: clone_text(&self.tree_exclude),
            no_tree: self.no_tree,
            tree_no_ignore: self.tree_no_ignore,
            max_size: self.max_size,
            no_blacklist: self.no_blacklist,
        }
    }

    /// Takes every field that `update` sets.
    pub fn merge_from(&mut self, update: ProfileConfig)
        ensures
            *final(self) == old(self).merged(update),
    {
        if update.description.is_some() {
            self.description = update.description;
        }
        if update.output_path.is_some() {
            self.output_path = update.output_path;
        }
        if update.no_ignore.is_some() {
            self.no_ignore = update.no_ignore;
        }
        if update.includes.is_some() {
            self.includes = update.includes;
        }
        if update.exclude.is_some() {
            self.exclude = update.exclude;
        }
        if update.tree_include.is_some() {
            self.tree_include = update.tree_include;
        }
        if update.tree_exclude.is_some() {
            self.tree_exclude = update.tree_exclude;
        }
        if update.no_tree.is_some() {
            self.no_tree = update.no_tree;
        }
        if update.tree_no_ignore.is_some() {
            self.tree_no_ignore = update.tree_no_ignore;
        }
        if update.max_size.is_some() {
            self.max_size = update.max_size;
        }
        if update.no_blacklist.is_some() {
            self.no_blacklist = update.no_blacklist;
        }
    }
}

/// Merging in a profile with no field set changes nothing.
pub proof fn law_merge_empty_is_identity(p: ProfileConfig)
    ensures
        p.merged(ProfileConfig::empty()) == p,
        ProfileConfig::empty().merged(p) == p,
{
}

/// Merging a profile into itself changes nothing.
pub proof fn law_merge_idempotent(p: ProfileConfig)
    ensures
        p.merged(p) == p,
{
}

/// Merging in `b` and then `c` is merging in `b` merged with `c`.
pub proof fn law_merge_associative(a: ProfileConfig, b: ProfileConfig, c: ProfileConfig)
    ensures
        a.merged(b).merged(c) == a.merged(b.merged(c)),
{
}

/// A merge takes exactly the fields that the update sets: every field set
/// in the update comes from it, and every other field is left as it was.
pub proof fn law_merge_takes_only_set_fields(a: ProfileConfig, u: ProfileConfig)
    ensures
        u.description is Some ==> a.merged(u).description == u.description,
        u.description is None ==> a.merged(u).description == a.description,
        u.output_path is Some ==> a.merged(u).output_path == u.output_path,
        u.output_path is None ==> a.merged(u).output_path == a.output_path,
        u.no_ignore is Some ==> a.merged(u).no_ignore == u.no_ignore,
        u.no_ignore is None ==> a.merged(u).no_ignore == a.no_ignore,
        u.includes is Some ==> a.merged(u).includes == u.includes,
        u.includes is None ==> a.merged(u).includes == a.includes,
        u.exclude is Some ==> a.merged(u).exclude == u.exclude,
        u.exclude is None ==> a.merged(u).exclude == a.exclude,
        u.tree_include is Some ==> a.merged(u).tree_include == u.tree_include,
        u.tree_include is None ==> a.merged(u).tree_include == a.tree_include,
        u.tree_exclude is Some ==> a.merged(u).tree_exclude == u.tree_exclude,
        u.tree_exclude is None ==> a.merged(u).tree_exclude == a.tree_exclude,
        u.no_tree is Some ==> a.merged(u).no_tree == u.no_tree,
        u.no_tree is None ==> a.merged(u).no_tree == a.no_tree,
        u.tree_no_ignore is Some ==> a.merged(u).tree_no_ignore == u.tree_no_ignore,
        u.tree_no_ignore is None ==> a.merged(u).tree_no_ignore == a.tree_no_ignore,
        u.max_size is Some ==> a.merged(u).max_size == u.max_size,
        u.max_size is None ==> a.merged(u).max_size == a.max_size,
        u.no_blacklist is Some ==> a.merged(u).no_blacklist == u.no_blacklist,
        u.no_blacklist is None ==> a.merged(u).no_blacklist == a.no_blacklist,
{
}

/// The profile options of the `profile create` and `profile update`
/// commands.
#[derive(Debug, PartialEq, Eq)]
pub struct ProfileOptions {
    pub output_path: Option<String>,
    pub no_ignore: Option<bool>,
    pub includes: Option<String>,
    pub exclude: Option<String>,
    pub tree_include: Option<String>,
    pub tree_exclude: Option<String>,
    pub no_tree: Option<bool>,
    pub tree_no_ignore: Option<bool>,
    pub max_size: Option<usize>,
    pub no_blacklist: Option<bool>,
    pub desc: Option<String>,
}

impl ProfileOptions {
    /// The profile that the options describe.
    pub open spec fn spec_profile(self) -> ProfileConfig {
        ProfileConfig {
            description: self.desc,
            output_path: self.output_path,
            no_ignore: self.no_ignore,
            includes: self.includes,
            exclude: self.exclude,
            tree_include: self.tree_include,
            tree_exclude: self.tree_exclude,
            no_tree: self.no_tree,
            tree_no_ignore: self.tree_no_ignore,
            max_size: self.max_size,
            no_blacklist: self.no_blacklist,
        }
    }

    /// The profile that the options describe.
    pub fn to_profile_config(&self) -> (r: ProfileConfig)
        ensures
            r == self.spec_profile(),
    {
        ProfileConfig {
            description: clone_text(&self.desc),
            output_path: clone_text(&self.output_path),
            no_ignore: self.no_ignore,
            includes: clone_text(&self.includes),
            exclude: clone_text(&self.exclude),
            tree_include: clone_text(&self.tree_include),
            tree_exclude: clone_text(&self.tree_exclude),
            no_tree: self.no_tree,
            tree_no_ignore: self.tree_no_ignore,
            max_size: self.max_size,
            no_blacklist: self.no_blacklist,
        }
    }
}

/// The options of the `explain` command.
#[derive(Debug, PartialEq, Eq)]
pub struct ExplainOptions {
    pub profile_options: ProfileOptions,
    pub profile: Option<String>,
    pub no_config: bool,
    pub dry_run: bool,
    pub save: bool,
    pub replace: bool,
    pub copy: bool,
    pub show_arg: Option<bool>,
}

/// The subcommands of `profile`.
#[derive(Debug, PartialEq, Eq)]
pub enum ProfileSubcommands {
    List { json: bool },
    Show { profile: String, json: bool },
    Create { profile: String, options: ProfileOptions },
    Update { profile: String, replace: bool, options: ProfileOptions },
    Delete { profile: String },
    Rename { old_name: String, new_name: String },
    Desc { description: String, profile: String },
}

/// The subcommands of the program.
#[derive(Debug, PartialEq, Eq)]
pub enum Commands {
    Profile { subcommand: Box<ProfileSubcommands> },
    Update,
    Explain { paths: Vec<String>, options: Box<ExplainOptions> },
}

/// The command line, as parsed.
#[derive(Debug, PartialEq, Eq)]
pub struct Args {
    pub path: Option<String>,
    pub output_path: Option<String>,
    pub no_ignore: Option<bool>,
    pub includes: Option<String>,
    pub exclude: Option<String>,
    pub tree_include: Option<String>,
    pub tree_exclude: Option<String>,
    pub no_tree: Option<bool>,
    pub tree_no_ignore: Option<bool>,
    pub dry_run: bool,
    pub max_size: Option<usize>,
    pub show_arg: Option<bool>,
    pub save: bool,
    pub replace: bool,
    pub desc: Option<String>,
    pub no_config: bool,
    pub no_blacklist: Option<bool>,
    pub copy: bool,
    pub profile: Option<String>,
    pub command: Option<Commands>,
}

/// Which options were given on the command line itself (not defaulted).
#[derive(Debug, PartialEq, Eq, Clone, Copy)]
pub struct ExplicitArgs {
    pub desc: bool,
    pub output_path: bool,
    pub no_ignore: bool,
    pub includes: bool,
    pub exclude: bool,
    pub tree_include: bool,
    pub tree_exclude: bool,
    pub no_tree: bool,
    pub tree_no_ignore: bool,
    pub max_size: bool,
    pub no_blacklist: bool,
}

/// A value where its option was given on the command line.
pub open spec fn given<T>(explicit: bool, value: Option<T>) -> Option<T> {
    if explicit {
        value
    } else {
        None
    }
}

/// The fully resolved settings of one run.
#[derive(Debug, PartialEq, Eq)]
pub struct AppConfig {
    pub path: String,
    pub output_path: String,
    pub no_ignore: bool,
    pub includes: Option<String>,
    pub exclude: Option<String>,
    pub tree_include: Option<String>,
    pub tree_exclude: Option<String>,
    pub no_tree: bool,
    pub tree_no_ignore: bool,
    pub dry_run: bool,
    pub max_size: usize,
    pub no_blacklist: bool,
    pub copy: bool,
}

/// The value of an optional flag, `false` where unset.
pub open spec fn flag(v: Option<bool>) -> bool {
    match v {
        Some(b) => b,
        None => false,
    }
}

/// The default per-file size limit, in KiB.
pub const DEFAULT_MAX_KIB: usize = 500;

/// Whether the tree walk skips the ignore filters: its own setting where
/// given, else the content's `--no-ignore`.
pub open spec fn tree_flag(tree_no_ignore: Option<bool>, no_ignore: Option<bool>) -> bool {
    match tree_no_ignore {
        Some(b) => b,
        None => flag(no_ignore),
    }
}

/// The per-file size limit, the default where unset.
pub open spec fn max_kib_or_default(v: Option<usize>) -> usize {
    match v {
        Some(m) => m,
        None => DEFAULT_MAX_KIB,
    }
}

/// The output file name that a run with no output path uses: the scan
/// root's folder name (or `project`) followed by `.onesource`.
pub open spec fn default_output_name(folder_name: Option<Seq<char>>) -> Seq<char> {
    match folder_name {
        Some(f) => f + ".onesource"@,
        None => "project"@ + ".onesource"@,
    }
}

impl Args {
    /// The profile made of the options given on the command line.
    pub open spec fn spec_explicit_profile(self, e: ExplicitArgs) -> ProfileConfig {
        ProfileConfig {
            description: given(e.desc, self.desc),
            output_path: given(e.output_path, self.output_path),
            no_ignore: given(e.no_ignore, self.no_ignore),
            includes: given(e.includes, self.includes),
            exclude: given(e.exclude, self.exclude),
            tree_include: given(e.tree_include, self.tree_include),
            tree_exclude: given(e.tree_exclude, self.tree_exclude),
            no_tree: given(e.no_tree, self.no_tree),
            tree_no_ignore: given(e.tree_no_ignore, self.tree_no_ignore),
            max_size: given(e.max_size, self.max_size),
            no_blacklist: given(e.no_blacklist, self.no_blacklist),
        }
    }

    /// The options that this command line gave explicitly, as a profile;
    /// `--save` stores this.
    pub fn explicit_profile_config(&self, explicit: &ExplicitArgs) -> (r: ProfileConfig)
        ensures
            r == self.spec_explicit_profile(*explicit),
    {
        ProfileConfig {
            description: if explicit.desc {
                clone_text(&self.desc)
            } else {
                None
            },
            output_path: if explicit.output_path {
                clone_text(&self.output_path)
            } else {
                None
            },
            no_ignore: if explicit.no_ignore {
                self.no_ignore
            } else {
                None
            },
            includes: if explicit.includes {
                clone_text(&self.includes)
            } else {
                None
            },
            exclude: if explicit.exclude {
                clone_text(&self.exclude)
            } else {
                None
            },
            tree_include: if explicit.tree_include {
                clone_text(&self.tree_include)
            } else {
                None
            },
            tree_exclude: if explicit.tree_exclude {
                clone_text(&self.tree_exclude)
            } else {
                None
            },
            no_tree: if explicit.no_tree {
                self.no_tree
            } else {
                None
            },
            tree_no_ignore: if explicit.tree_no_ignore {
                self.tree_no_ignore
            } else {
                None
            },
            max_size: if explicit.max_size {
                self.max_size
            } else {
                None
            },
            no_blacklist: if explicit.no_blacklist {
                self.no_blacklist
            } else {
                None
            },
        }
    }

    /// The command line after the options of the `explain` command are
    /// applied: each option given there replaces the run's own.
    pub open spec fn with_explain_options(self, o: ExplainOptions) -> Args {
        let p = o.profile_options;
        Args {
            profile: pick(self.profile, o.profile),
            no_config: self.no_config || o.no_config,
            dry_run: self.dry_run || o.dry_run,
            copy: self.copy || o.copy,
            show_arg: pick(self.show_arg, o.show_arg),
            output_path: pick(self.output_path, p.output_path),
            no_ignore: pick(self.no_ignore, p.no_ignore),
            includes: pick(self.includes, p.includes),
            exclude: pick(self.exclude, p.exclude),
            tree_include: pick(self.tree_include, p.tree_include),
            tree_exclude: pick(self.tree_exclude, p.tree_exclude),
            no_tree: pick(self.no_tree, p.no_tree),
            tree_no_ignore: pick(self.tree_no_ignore, p.tree_no_ignore),
            max_size: pick(self.max_size, p.max_size),
            no_blacklist: pick(self.no_blacklist, p.no_blacklist),
            ..self
        }
    }

    /// Applies the options of the `explain` command.
    pub fn apply_explain_options(&mut self, options: &ExplainOptions)
        ensures
            *final(self) == old(self).with_explain_options(*options),
    {
        let p = &options.profile_options;
        set_text(&mut self.profile, &options.profile);
        self.no_config = self.no_config || options.no_config;
        self.dry_run = self.dry_run || options.dry_run;
        self.copy = self.copy || options.copy;
        set_value(&mut self.show_arg, options.show_arg);
        set_text(&mut self.output_path, &p.output_path);
        set_value(&mut self.no_ignore, p.no_ignore);
        set_text(&mut self.includes, &p.includes);
        set_text(&mut self.exclude, &p.exclude);
        set_text(&mut self.tree_include, &p.tree_include);
        set_text(&mut self.tree_exclude, &p.tree_exclude);
        set_value(&mut self.no_tree, p.no_tree);
        set_value(&mut self.tree_no_ignore, p.tree_no_ignore);
        set_value(&mut self.max_size, p.max_size);
        set_value(&mut self.no_blacklist, p.no_blacklist);
    }

    /// The settings of the run: every unset option takes its built-in
    /// default. `folder_name` is the file name of the canonical scan root,
    /// used to name the output where no output path is set.
    pub open spec fn spec_resolve(self, folder_name: Option<Seq<char>>) -> (Seq<char>, Seq<char>) {
        (
            match self.path {
                Some(p) => p@,
                None => "."@,
            },
            match self.output_path {
                Some(o) => o@,
                None => default_output_name(folder_name),
            },
        )
    }

    /// Resolves the settings of the run.
    pub fn resolve(self, folder_name: Option<String>) -> (r: AppConfig)
        ensures
            (r.path@, r.output_path@) == self.spec_resolve(
                match folder_name {
                    Some(f) => Some(f@),
                    None => None,
                },
            ),
            r.no_ignore == flag(self.no_ignore),
            r.max_size == max_kib_or_default(self.max_size),
            r.no_tree == flag(self.no_tree),
            r.tree_no_ignore == tree_flag(self.tree_no_ignore, self.no_ignore),
            r.no_blacklist == flag(self.no_blacklist),
            r.includes == self.includes,
            r.exclude == self.exclude,
            r.tree_include == self.tree_include,
            r.tree_exclude == self.tree_exclude,
            r.copy == self.copy,
            r.dry_run == self.dry_run,
    {
        let path = match self.path {
            Some(p) => p,
            None => String::from_str("."),
        };
        let output_path = match self.output_path {
            Some(o) => o,
            None => {
                let mut name = match folder_name {
                    Some(f) => f,
                    None => String::from_str("project"),
                };
                push_str(&mut name, ".onesource");
                name
            },
        };
        AppConfig {
            path,
            output_path,
            no_ignore: match self.no_ignore {
                Some(b) => b,
                None => false,
            },
            max_size: match self.max_size {
                Some(m) => m,
                None => DEFAULT_MAX_KIB,
            },
            no_tree: match self.no_tree {
                Some(b) => b,
                None => false,
            },
            tree_no_ignore: match self.tree_no_ignore {
                Some(b) => b,
                None => match self.no_ignore {
                    Some(b) => b,
                    None => false,
                },
            },
            no_blacklist: match self.no_blacklist {
                Some(b) => b,
                None => false,
            },
            includes: self.includes,
            exclude: self.exclude,
            tree_include: self.tree_include,
            tree_exclude: self.tree_exclude,
            copy: self.copy,
            dry_run: self.dry_run,
        }
    }
}

// ----------------------------------------------------------------------------
// Profile names and errors
// ----------------------------------------------------------------------------

/// A character allowed in a profile name: an ASCII letter or digit, `.`,
/// `_` or `-`.
pub open spec fn name_char_ok(c: char) -> bool {
    ('a' <= c <= 'z') || ('A' <= c <= 'Z') || ('0' <= c <= '9') || c == '.' || c == '_' || c
        == '-'
}

/// A profile name is non-empty and made of allowed characters only.
pub open spec fn valid_profile_name(s: Seq<char>) -> bool {
    s.len() > 0 && forall|i: int| 0 <= i < s.len() ==> name_char_ok(#[trigger] s[i])
}

/// Why a profile operation failed.
#[derive(Debug, PartialEq, Eq)]
pub enum ConfigError {
    InvalidProfileName { name: String },
    ProfileExists { name: String },
    ProfileNotFound { name: String },
    ConfigMissing { name: String },
}

/// A profile operation's failure by the text of the name involved.
pub enum ConfigFault {
    InvalidName(Seq<char>),
    Exists(Seq<char>),
    NotFound(Seq<char>),
    Missing(Seq<char>),
}

impl View for ConfigError {
    type V = ConfigFault;

    open spec fn view(&self) -> ConfigFault {
        match self {
            ConfigError::InvalidProfileName { name } => ConfigFault::InvalidName(name@),
            ConfigError::ProfileExists { name } => ConfigFault::Exists(name@),
            ConfigError::ProfileNotFound { name } => ConfigFault::NotFound(name@),
            ConfigError::ConfigMissing { name } => ConfigFault::Missing(name@),
        }
    }
}

/// The message shown for a failure.
pub open spec fn fault_message(f: ConfigFault) -> Seq<char> {
    match f {
        ConfigFault::InvalidName(n) => "Invalid profile name '"@ + n
            + "'. Use only letters, numbers, '.', '_' and '-'."@,
        ConfigFault::Exists(n) => "Profile '"@ + n + "' already exists"@,
        ConfigFault::NotFound(n) => "Profile '"@ + n + "' not found in .onesourcerc"@,
        ConfigFault::Missing(n) => ".onesourcerc not found, but profile '"@ + n
            + "' was requested."@,
    }
}

impl ConfigError {
    /// The message shown for the failure.
    pub fn message(&self) -> (r: String)
        ensures
            r@ == fault_message(self@),
    {
        match self {
            ConfigError::InvalidProfileName { name } => {
                let mut r = String::from_str("Invalid profile name '");
                push_str(&mut r, name.as_str());
                push_str(&mut r, "'. Use only letters, numbers, '.', '_' and '-'.");
                r
            },
            ConfigError::ProfileExists { name } => {
                let mut r = String::from_str("Profile '");
                push_str(&mut r, name.as_str());
                push_str(&mut r, "' already exists");
                r
            },
            ConfigError::ProfileNotFound { name } => {
                let mut r = String::from_str("Profile '");
                push_str(&mut r, name.as_str());
                push_str(&mut r, "' not found in .onesourcerc");
                r
            },
            ConfigError::ConfigMissing { name } => {
                let mut r = String::from_str(".onesourcerc not found, but profile '");
                push_str(&mut r, name.as_str());
                push_str(&mut r, "' was requested.");
                r
            },
        }
    }
}

// ----------------------------------------------------------------------------
// The configuration document
// ----------------------------------------------------------------------------

/// The saved profiles of a `.onesourcerc`, by name. Names are unique.
pub struct ConfigDocument {
    names: Vec<String>,
    profiles: Vec<ProfileConfig>,
}

impl ConfigDocument {
    /// The profile at `i` is stored under the name `k`.
    pub closed spec fn holds(self, k: Seq<char>, i: int) -> bool {
        0 <= i < self.names.len() && self.names[i]@ == k
    }

    /// One profile per name, each name once.
    #[verifier::type_invariant]
    closed spec fn inv(self) -> bool {
        &&& self.names.len() == self.profiles.len()
        &&& forall|i: int, j: int|
            0 <= i < j < self.names.len() ==> #[trigger] self.names[i]@ != #[trigger] self.names[j]@
    }
}

impl View for ConfigDocument {
    type V = Map<Seq<char>, ProfileConfig>;

    closed spec fn view(&self) -> Map<Seq<char>, ProfileConfig> {
        Map::new(
            |k: Seq<char>| exists|i: int| self.holds(k, i),
            |k: Seq<char>| self.profiles[choose|i: int| self.holds(k, i)],
        )
    }
}

impl ConfigDocument {
    proof fn lemma_at(self, i: int)
        requires
            self.inv(),
            0 <= i < self.names.len(),
        ensures
            self@.contains_key(self.names[i]@),
            self@[self.names[i]@] == self.profiles[i],
    {
        let k = self.names[i]@;
        assert(self.holds(k, i));
        let j = choose|j: int| self.holds(k, j);
        if j != i {
            if j < i {
                assert(self.names[j]@ != self.names[i]@);
            } else {
                assert(self.names[i]@ != self.names[j]@);
            }
        }
    }

    /// A document with no profile.
    pub fn new() -> (r: ConfigDocument)
        ensures
            r@ == Map::<Seq<char>, ProfileConfig>::empty(),
    {
        let r = ConfigDocument { names: Vec::new(), profiles: Vec::new() };
        assert(r@ =~= Map::<Seq<char>, ProfileConfig>::empty());
        r
    }

    /// The position of the profile named `name`.
    fn find(&self, name: &str) -> (r: Option<usize>)
        ensures
            r matches Some(i) ==> self.holds(name@, i as int) && self@.contains_key(name@)
                && self@[name@] == self.profiles[i as int],
            r is None ==> !self@.contains_key(name@),
    {
        proof {
            use_type_invariant(self);
        }
        let n = self.names.len();
        let mut i: usize = 0;
        while i < n
            invariant
                n == self.names.len(),
                i <= n,
                self.inv(),
                forall|k: int| 0 <= k < i ==> self.names[k]@ != name@,
            decreases n - i,
        {
            if same_text(self.names[i].as_str(), name) {
                proof {
                    self.lemma_at(i as int);
                }
                return Some(i);
            }
            i = i + 1;
        }
        None
    }

    /// Whether a profile is stored under `name`.
    pub fn contains_key(&self, name: &str) -> (r: bool)
        ensures
            r == self@.contains_key(name@),
    {
        self.find(name).is_some()
    }

    /// The profile stored under `name`.
    pub fn get(&self, name: &str) -> (r: Option<&ProfileConfig>)
        ensures
            r matches Some(p) ==> self@.contains_key(name@) && *p == self@[name@],
            r is None ==> !self@.contains_key(name@),
    {
        proof {
            use_type_invariant(self);
        }
        match self.find(name) {
            Some(i) => Some(&self.profiles[i]),
            None => None,
        }
    }

    /// The number of profiles.
    pub fn len(&self) -> (r: usize)
        ensures
            r == self@.dom().len(),
    {
        proof {
            use_type_invariant(self);
            self.lemma_dom_len();
        }
        self.names.len()
    }

    proof fn lemma_dom_len(self)
        requires
            self.inv(),
        ensures
            self@.dom().finite(),
            self@.dom().len() == self.names.len(),
    {
        let s = Set::new(|i: int| 0 <= i < self.names.len());
        let f = |i: int| self.names[i]@;
        assert(s =~= vstd::set_lib::set_int_range(0, self.names.len() as int));
        vstd::set_lib::lemma_int_range(0, self.names.len() as int);
        assert forall|a: int, b: int| s.contains(a) && s.contains(b) && #[trigger] f(a) == #[trigger] f(b) implies a
            == b by {
            if a < b {
                assert(self.names[a]@ != self.names[b]@);
            } else if b < a {
                assert(self.names[b]@ != self.names[a]@);
            }
        }
        assert(vstd::relations::injective_on(f, s));
        vstd::set_lib::lemma_map_size(s, s.map(f), f);
        assert(self@.dom() =~= s.map(f)) by {
            assert forall|k: Seq<char>| self@.dom().contains(k) implies s.map(f).contains(k) by {
                let i = choose|i: int| self.holds(k, i);
                assert(s.contains(i) && f(i) == k);
            }
            assert forall|k: Seq<char>| s.map(f).contains(k) implies self@.dom().contains(k) by {
                let i = choose|i: int| s.contains(i) && f(i) == k;
                assert(self.holds(k, i));
            }
        }
    }

    /// Stores `profile` under `name`, replacing what was stored there.
    pub fn insert(&mut self, name: String, profile: ProfileConfig)
        ensures
            final(self)@ == old(self)@.insert(name@, profile),
    {
        proof {
            use_type_invariant(&*self);
        }
        let found = self.find(name.as_str());
        let mut tmp = ConfigDocument::new();
        std::mem::swap(&mut tmp, self);
        proof {
            use_type_invariant(&tmp);
        }
        let ghost before = tmp;
        let ConfigDocument { mut names, mut profiles } = tmp;
        match found {
            Some(i) => {
                profiles.set(i, profile);
            },
            None => {
                names.push(name);
                profiles.push(profile);
            },
        }
        let ghost nv = names@;
        let ghost pv = profiles@;
        proof {
            assert forall|a: int, b: int| 0 <= a < b < nv.len() implies #[trigger] nv[a]@
                != #[trigger] nv[b]@ by {
                if found is None && b == nv.len() - 1 {
                    assert(!before.holds(name@, a));
                    assert(before.names[a]@ != name@);
                } else {
                    assert(before.names[a]@ != before.names[b]@);
                }
            }
        }
        let after = ConfigDocument { names, profiles };
        proof {
            assert(after@ =~= before@.insert(name@, profile)) by {
                assert forall|k: Seq<char>| #[trigger] after@.contains_key(k) == before@.insert(
                    name@,
                    profile,
                ).contains_key(k) by {
                    if after@.contains_key(k) {
                        let j = choose|j: int| after.holds(k, j);
                        if k != name@ {
                            assert(before.holds(k, j));
                        }
                    }
                    if before@.contains_key(k) {
                        let j = choose|j: int| before.holds(k, j);
                        assert(after.holds(k, j));
                    }
                    if k == name@ {
                        match found {
                            Some(i) => assert(after.holds(k, i as int)),
                            None => assert(after.holds(k, nv.len() - 1)),
                        }
                    }
                }
                assert forall|k: Seq<char>| #[trigger] after@.contains_key(k) implies after@[k]
                    == before@.insert(name@, profile)[k] by {
                    let j = choose|j: int| after.holds(k, j);
                    after.lemma_at(j);
                    if k == name@ {
                        match found {
                            Some(i) => {
                                assert(after.names[i as int]@ == k);
                                after.lemma_at(i as int);
                            },
                            None => {
                                after.lemma_at(nv.len() - 1);
                            },
                        }
                    } else {
                        assert(before.holds(k, j));
                        before.lemma_at(j);
                    }
                }
            }
        }
        *self = after;
    }

    /// Removes the profile stored under `name`; returns it where there was one.
    pub fn remove(&mut self, name: &str) -> (r: Option<ProfileConfig>)
        ensures
            final(self)@ == old(self)@.remove(name@),
            r matches Some(p) ==> old(self)@.contains_key(name@) && p == old(self)@[name@],
            r is None ==> !old(self)@.contains_key(name@),
    {
        proof {
            use_type_invariant(&*self);
        }
        let found = self.find(name);
        match found {
            None => {
                assert(self@ =~= self@.remove(name@));
                None
            },
            Some(i) => {
                let mut tmp = ConfigDocument::new();
                std::mem::swap(&mut tmp, self);
                proof {
                    use_type_invariant(&tmp);
                }
                let ghost before = tmp;
                let ConfigDocument { mut names, mut profiles } = tmp;
                names.remove(i);
                let p = profiles.remove(i);
                let ghost nv = names@;
                proof {
                    assert forall|a: int, b: int| 0 <= a < b < nv.len() implies #[trigger] nv[a]@
                        != #[trigger] nv[b]@ by {
                        let a0 = if a < i { a } else { a + 1 };
                        let b0 = if b < i { b } else { b + 1 };
                        assert(nv[a] == before.names[a0]);
                        assert(nv[b] == before.names[b0]);
                        assert(before.names[a0]@ != before.names[b0]@);
                    }
                }
                let after = ConfigDocument { names, profiles };
                proof {
                    before.lemma_at(i as int);
                    assert(after@ =~= before@.remove(name@)) by {
                        assert forall|k: Seq<char>| #[trigger] after@.contains_key(k)
                            == before@.remove(name@).contains_key(k) by {
                            if after@.contains_key(k) {
                                let j = choose|j: int| after.holds(k, j);
                                let j0 = if j < i { j } else { j + 1 };
                                assert(before.holds(k, j0));
                                if k == name@ {
                                    if j0 < i {
                                        assert(before.names[j0]@ != before.names[i as int]@);
                                    } else {
                                        assert(before.names[i as int]@ != before.names[j0]@);
                                    }
                                }
                            }
                            if before@.contains_key(k) && k != name@ {
                                let j0 = choose|j: int| before.holds(k, j);
                                assert(j0 != i);
                                let j = if j0 < i { j0 } else { j0 - 1 };
                                assert(after.holds(k, j));
                            }
                        }
                        assert forall|k: Seq<char>| #[trigger] after@.contains_key(k) implies after@[k]
                            == before@.remove(name@)[k] by {
                            let j = choose|j: int| after.holds(k, j);
                            after.lemma_at(j);
                            let j0 = if j < i { j } else { j + 1 };
                            assert(before.holds(k, j0));
                            before.lemma_at(j0);
                        }
                    }
                }
                *self = after;
                Some(p)
            },
        }
    }
}

// ----------------------------------------------------------------------------
// Profile operations
// ----------------------------------------------------------------------------

/// The profiles of a document, by name.
pub type Profiles = Map<Seq<char>, ProfileConfig>;

/// `profile create`: a new name gets the profile; an existing one is an error.
pub open spec fn spec_create(m: Profiles, name: Seq<char>, p: ProfileConfig) -> Result<
    Profiles,
    ConfigFault,
> {
    if !valid_profile_name(name) {
        Err(ConfigFault::InvalidName(name))
    } else if m.contains_key(name) {
        Err(ConfigFault::Exists(name))
    } else {
        Ok(m.insert(name, p))
    }
}

/// `profile update`: an existing profile is replaced by, or merged with,
/// the given one; a missing one is an error.
pub open spec fn spec_update(m: Profiles, name: Seq<char>, p: ProfileConfig, replace: bool) -> Result<
    Profiles,
    ConfigFault,
> {
    if !valid_profile_name(name) {
        Err(ConfigFault::InvalidName(name))
    } else if !m.contains_key(name) {
        Err(ConfigFault::NotFound(name))
    } else if replace {
        Ok(m.insert(name, p))
    } else {
        Ok(m.insert(name, m[name].merged(p)))
    }
}

/// `--save`: the profile is stored, merged with an existing one of the same
/// name unless `replace` is set.
pub open spec fn spec_upsert(m: Profiles, name: Seq<char>, p: ProfileConfig, replace: bool) -> Result<
    Profiles,
    ConfigFault,
> {
    if !valid_profile_name(name) {
        Err(ConfigFault::InvalidName(name))
    } else if replace || !m.contains_key(name) {
        Ok(m.insert(name, p))
    } else {
        Ok(m.insert(name, m[name].merged(p)))
    }
}

/// `profile delete`.
pub open spec fn spec_delete(m: Profiles, name: Seq<char>) -> Result<Profiles, ConfigFault> {
    if !valid_profile_name(name) {
        Err(ConfigFault::InvalidName(name))
    } else if !m.contains_key(name) {
        Err(ConfigFault::NotFound(name))
    } else {
        Ok(m.remove(name))
    }
}

/// `profile rename`: the profile moves to a name that is not taken.
pub open spec fn spec_rename(m: Profiles, from: Seq<char>, to: Seq<char>) -> Result<
    Profiles,
    ConfigFault,
> {
    if !valid_profile_name(from) {
        Err(ConfigFault::InvalidName(from))
    } else if !valid_profile_name(to) {
        Err(ConfigFault::InvalidName(to))
    } else if m.contains_key(to) {
        Err(ConfigFault::Exists(to))
    } else if !m.contains_key(from) {
        Err(ConfigFault::NotFound(from))
    } else {
        Ok(m.remove(from).insert(to, m[from]))
    }
}

/// `profile show`: the profile stored under a name.
pub open spec fn spec_get(m: Profiles, name: Seq<char>) -> Result<ProfileConfig, ConfigFault> {
    if m.contains_key(name) {
        Ok(m[name])
    } else {
        Err(ConfigFault::NotFound(name))
    }
}

/// The outcome of an operation on a document: on success the document
/// becomes the result, on failure it is left as it was.
pub open spec fn applied(r: Result<(), ConfigError>, spec: Result<Profiles, ConfigFault>, before: Profiles, after: Profiles) -> bool {
    match r {
        Ok(()) => spec == Ok::<Profiles, ConfigFault>(after),
        Err(e) => spec == Err::<Profiles, ConfigFault>(e@) && after == before,
    }
}

/// The character text of a string slice made into a string.
fn owned(s: &str) -> (r: String)
    ensures
        r@ == s@,
{
    s.to_owned()
}

impl Args {
    /// Whether a profile name is valid.
    pub fn is_valid_profile_name(profile_name: &str) -> (r: bool)
        ensures
            r == valid_profile_name(profile_name@),
    {
        let cs = chars_of(profile_name);
        if cs.len() == 0 {
            return false;
        }
        let n = cs.len();
        let mut i: usize = 0;
        while i < n
            invariant
                n == cs.len(),
                i <= n,
                cs@ == profile_name@,
                forall|k: int| 0 <= k < i ==> name_char_ok(#[trigger] cs@[k]),
            decreases n - i,
        {
            let c = cs[i];
            let ok = ('a' <= c && c <= 'z') || ('A' <= c && c <= 'Z') || ('0' <= c && c <= '9')
                || c == '.' || c == '_' || c == '-';
            if !ok {
                return false;
            }
            i = i + 1;
        }
        true
    }

    /// Checks a profile name.
    pub fn validate_profile_name(profile_name: &str) -> (r: Result<(), ConfigError>)
        ensures
            r is Ok <==> valid_profile_name(profile_name@),
            r matches Err(e) ==> e@ == ConfigFault::InvalidName(profile_name@),
    {
        if Self::is_valid_profile_name(profile_name) {
            Ok(())
        } else {
            Err(ConfigError::InvalidProfileName { name: owned(profile_name) })
        }
    }

    /// The profile stored under a name.
    pub fn get_profile<'a>(config_doc: &'a ConfigDocument, profile_name: &str) -> (r: Result<
        &'a ProfileConfig,
        ConfigError,
    >)
        ensures
            match r {
                Ok(p) => spec_get(config_doc@, profile_name@) == Ok::<ProfileConfig, ConfigFault>(
                    *p,
                ),
                Err(e) => spec_get(config_doc@, profile_name@) == Err::<ProfileConfig, ConfigFault>(
                    e@,
                ),
            },
    {
        match config_doc.get(profile_name) {
            Some(p) => Ok(p),
            None => Err(ConfigError::ProfileNotFound { name: owned(profile_name) }),
        }
    }

    /// Creates a profile in the document.
    pub fn create_profile(
        config_doc: &mut ConfigDocument,
        profile_name: &str,
        profile: ProfileConfig,
    ) -> (r: Result<(), ConfigError>)
        ensures
            applied(
                r,
                spec_create(old(config_doc)@, profile_name@, profile),
                old(config_doc)@,
                final(config_doc)@,
            ),
    {
        Self::validate_profile_name(profile_name)?;
        if config_doc.contains_key(profile_name) {
            return Err(ConfigError::ProfileExists { name: owned(profile_name) });
        }
        config_doc.insert(owned(profile_name), profile);
        Ok(())
    }

    /// Replaces or merges into an existing profile.
    pub fn update_profile(
        config_doc: &mut ConfigDocument,
        profile_name: &str,
        profile: ProfileConfig,
        replace: bool,
    ) -> (r: Result<(), ConfigError>)
        ensures
            applied(
                r,
                spec_update(old(config_doc)@, profile_name@, profile, replace),
                old(config_doc)@,
                final(config_doc)@,
            ),
    {
        Self::validate_profile_name(profile_name)?;
        let updated = match config_doc.get(profile_name) {
            None => return Err(ConfigError::ProfileNotFound { name: owned(profile_name) }),
            Some(existing) => {
                if replace {
                    profile
                } else {
                    let mut merged = existing.duplicate();
                    merged.merge_from(profile);
                    merged
                }
            },
        };
        config_doc.insert(owned(profile_name), updated);
        Ok(())
    }

    /// Stores the profile, merging into an existing one unless `replace`
    /// is set.
    pub fn upsert_profile(
        config_doc: &mut ConfigDocument,
        profile_name: &str,
        profile: ProfileConfig,
        replace: bool,
    ) -> (r: Result<(), ConfigError>)
        ensures
            applied(
                r,
                spec_upsert(old(config_doc)@, profile_name@, profile, replace),
                old(config_doc)@,
                final(config_doc)@,
            ),
    {
        Self::validate_profile_name(profile_name)?;
        let updated = if replace {
            profile
        } else {
            match config_doc.get(profile_name) {
                None => profile,
                Some(existing) => {
                    let mut merged = existing.duplicate();
                    merged.merge_from(profile);
                    merged
                },
            }
        };
        config_doc.insert(owned(profile_name), updated);
        Ok(())
    }

    /// Deletes a profile.
    pub fn delete_profile(config_doc: &mut ConfigDocument, profile_name: &str) -> (r: Result<
        (),
        ConfigError,
    >)
        ensures
            applied(
                r,
                spec_delete(old(config_doc)@, profile_name@),
                old(config_doc)@,
                final(config_doc)@,
            ),
    {
        Self::validate_profile_name(profile_name)?;
        match config_doc.remove(profile_name) {
            Some(_) => Ok(()),
            None => {
                assert(old(config_doc)@ == config_doc@);
                Err(ConfigError::ProfileNotFound { name: owned(profile_name) })
            },
        }
    }

    /// Moves a profile to a new name.
    pub fn rename_profile(config_doc: &mut ConfigDocument, old_name: &str, new_name: &str) -> (r: Result<
        (),
        ConfigError,
    >)
        ensures
            applied(
                r,
                spec_rename(old(config_doc)@, old_name@, new_name@),
                old(config_doc)@,
                final(config_doc)@,
            ),
    {
        Self::validate_profile_name(old_name)?;
        Self::validate_profile_name(new_name)?;
        if config_doc.contains_key(new_name) {
            return Err(ConfigError::ProfileExists { name: owned(new_name) });
        }
        match config_doc.remove(old_name) {
            None => {
                assert(old(config_doc)@ == config_doc@);
                Err(ConfigError::ProfileNotFound { name: owned(old_name) })
            },
            Some(profile) => {
                config_doc.insert(owned(new_name), profile);
                Ok(())
            },
        }
    }
}

// ----------------------------------------------------------------------------
// Laws of the document
// ----------------------------------------------------------------------------

/// A created profile is what `profile show` then gives back.
pub proof fn law_create_then_get(m: Profiles, name: Seq<char>, p: ProfileConfig)
    requires
        spec_create(m, name, p) is Ok,
    ensures
        spec_get(spec_create(m, name, p)->Ok_0, name) == Ok::<ProfileConfig, ConfigFault>(p),
{
}

/// Creating a profile under a name that is taken fails and says so.
pub proof fn law_create_refuses_taken_name(m: Profiles, name: Seq<char>, p: ProfileConfig)
    requires
        valid_profile_name(name),
        m.contains_key(name),
    ensures
        spec_create(m, name, p) == Err::<Profiles, ConfigFault>(ConfigFault::Exists(name)),
{
}

/// An update keeps the fields that it does not set, and `--replace`
/// leaves exactly the given profile.
pub proof fn law_update_merges_or_replaces(m: Profiles, name: Seq<char>, p: ProfileConfig)
    requires
        valid_profile_name(name),
        m.contains_key(name),
    ensures
        spec_get(spec_update(m, name, p, false)->Ok_0, name) == Ok::<ProfileConfig, ConfigFault>(
            m[name].merged(p),
        ),
        spec_get(spec_update(m, name, p, true)->Ok_0, name) == Ok::<ProfileConfig, ConfigFault>(p),
{
}

/// A deleted profile is no longer found, and the others are untouched.
pub proof fn law_delete_then_get(m: Profiles, name: Seq<char>, other: Seq<char>)
    requires
        spec_delete(m, name) is Ok,
        other != name,
    ensures
        spec_get(spec_delete(m, name)->Ok_0, name) == Err::<ProfileConfig, ConfigFault>(
            ConfigFault::NotFound(name),
        ),
        spec_get(spec_delete(m, name)->Ok_0, other) == spec_get(m, other),
{
}

/// A renamed profile is found under its new name only, unchanged.
pub proof fn law_rename_moves_profile(m: Profiles, from: Seq<char>, to: Seq<char>)
    requires
        spec_rename(m, from, to) is Ok,
    ensures
        spec_get(spec_rename(m, from, to)->Ok_0, to) == spec_get(m, from),
        spec_get(spec_rename(m, from, to)->Ok_0, from) == Err::<ProfileConfig, ConfigFault>(
            ConfigFault::NotFound(from),
        ),
{
}

/// Saving with `--replace` stores exactly the given profile; saving
/// without it under a new name does the same.
pub proof fn law_save_stores_profile(m: Profiles, name: Seq<char>, p: ProfileConfig, replace: bool)
    requires
        valid_profile_name(name),
        replace || !m.contains_key(name),
    ensures
        spec_get(spec_upsert(m, name, p, replace)->Ok_0, name) == Ok::<ProfileConfig, ConfigFault>(p),
{
}

// ----------------------------------------------------------------------------
// Saved profiles and the command line
// ----------------------------------------------------------------------------

/// What reading the saved configuration did.
#[derive(Debug, PartialEq, Eq)]
pub enum SavedProfile {
    /// `--no-config` was given.
    Skipped,
    /// The named profile filled the unset options.
    Used { name: String },
    /// There is a configuration, but no `default` profile in it.
    NoDefaultProfile,
    /// There is no configuration and no profile was asked for.
    NoConfigFile,
}

/// The name of the profile a run asks for: `default` where none is given.
pub open spec fn profile_name_of(a: Args) -> Seq<char> {
    match a.profile {
        Some(p) => p@,
        None => "default"@,
    }
}

impl Args {
    /// The command line with every option that it leaves unset taken from
    /// the profile: the command line wins.
    pub open spec fn with_profile(self, p: ProfileConfig) -> Args {
        Args {
            output_path: pick(p.output_path, self.output_path),
            no_ignore: pick(p.no_ignore, self.no_ignore),
            includes: pick(p.includes, self.includes),
            exclude: pick(p.exclude, self.exclude),
            tree_include: pick(p.tree_include, self.tree_include),
            tree_exclude: pick(p.tree_exclude, self.tree_exclude),
            no_tree: pick(p.no_tree, self.no_tree),
            tree_no_ignore: pick(p.tree_no_ignore, self.tree_no_ignore),
            max_size: pick(p.max_size, self.max_size),
            no_blacklist: pick(p.no_blacklist, self.no_blacklist),
            ..self
        }
    }

    /// Fills the options this run leaves unset from its saved profile.
    /// `config_doc` is the parsed `.onesourcerc`,
    /// `None` where there is none. Asking for a profile that is not there
    /// is an error; a missing `default` profile is not.
    pub fn merge_saved_config(&mut self, config_doc: Option<&ConfigDocument>) -> (r: Result<
        SavedProfile,
        ConfigError,
    >)
        ensures
            old(self).no_config ==> r == Ok::<SavedProfile, ConfigError>(SavedProfile::Skipped)
                && *final(self) == *old(self),
            !old(self).no_config ==> match config_doc {
                Some(d) => if d@.contains_key(profile_name_of(*old(self))) {
                    &&& r matches Ok(SavedProfile::Used { name }) && name@ == profile_name_of(
                        *old(self),
                    )
                    &&& *final(self) == old(self).with_profile(d@[profile_name_of(*old(self))])
                } else if old(self).profile is Some {
                    &&& r matches Err(e) && e@ == ConfigFault::NotFound(profile_name_of(*old(self)))
                    &&& *final(self) == *old(self)
                } else {
                    r == Ok::<SavedProfile, ConfigError>(SavedProfile::NoDefaultProfile)
                        && *final(self) == *old(self)
                },
                None => if old(self).profile is Some {
                    &&& r matches Err(e) && e@ == ConfigFault::Missing(profile_name_of(*old(self)))
                    &&& *final(self) == *old(self)
                } else {
                    r == Ok::<SavedProfile, ConfigError>(SavedProfile::NoConfigFile) && *final(self)
                        == *old(self)
                },
            },
    {
        if self.no_config {
            return Ok(SavedProfile::Skipped);
        }
        let profile_name = match &self.profile {
            Some(p) => p.clone(),
            None => String::from_str("default"),
        };
        match config_doc {
            Some(doc) => {
                match doc.get(profile_name.as_str()) {
                    Some(profile) => {
                        fill_text(&mut self.output_path, &profile.output_path);
                        fill_value(&mut self.no_ignore, profile.no_ignore);
                        fill_text(&mut self.includes, &profile.includes);
                        fill_text(&mut self.exclude, &profile.exclude);
                        fill_text(&mut self.tree_include, &profile.tree_include);
                        fill_text(&mut self.tree_exclude, &profile.tree_exclude);
                        fill_value(&mut self.no_tree, profile.no_tree);
                        fill_value(&mut self.tree_no_ignore, profile.tree_no_ignore);
                        fill_value(&mut self.max_size, profile.max_size);
                        fill_value(&mut self.no_blacklist, profile.no_blacklist);
                        Ok(SavedProfile::Used { name: profile_name })
                    },
                    None => {
                        if self.profile.is_some() {
                            Err(ConfigError::ProfileNotFound { name: profile_name })
                        } else {
                            Ok(SavedProfile::NoDefaultProfile)
                        }
                    },
                }
            },
            None => {
                if self.profile.is_some() {
                    Err(ConfigError::ConfigMissing { name: profile_name })
                } else {
                    Ok(SavedProfile::NoConfigFile)
                }
            },
        }
    }
}

/// Keeps an optional string where it is set, else takes `earlier`.
pub fn fill_text(field: &mut Option<String>, earlier: &Option<String>)
    ensures
        *final(field) == pick(*earlier, *old(field)),
{
    if field.is_none() {
        *field = clone_text(earlier);
    }
}

/// Keeps an optional value where it is set, else takes `earlier`.
pub fn fill_value<T: Copy>(field: &mut Option<T>, earlier: Option<T>)
    ensures
        *final(field) == pick(earlier, *old(field)),
{
    if field.is_none() {
        *field = earlier;
    }
}

/// A saved profile only fills what the command line leaves unset: every
/// option given on the command line is kept, and every other profile
/// option is taken from the profile.
pub proof fn law_command_line_wins_over_profile(a: Args, p: ProfileConfig)
    ensures
        a.output_path is Some ==> a.with_profile(p).output_path == a.output_path,
        a.output_path is None ==> a.with_profile(p).output_path == p.output_path,
        a.no_ignore is Some ==> a.with_profile(p).no_ignore == a.no_ignore,
        a.no_ignore is None ==> a.with_profile(p).no_ignore == p.no_ignore,
        a.includes is Some ==> a.with_profile(p).includes == a.includes,
        a.includes is None ==> a.with_profile(p).includes == p.includes,
        a.exclude is Some ==> a.with_profile(p).exclude == a.exclude,
        a.exclude is None ==> a.with_profile(p).exclude == p.exclude,
        a.tree_include is Some ==> a.with_profile(p).tree_include == a.tree_include,
        a.tree_include is None ==> a.with_profile(p).tree_include == p.tree_include,
        a.tree_exclude is Some ==> a.with_profile(p).tree_exclude == a.tree_exclude,
        a.tree_exclude is None ==> a.with_profile(p).tree_exclude == p.tree_exclude,
        a.no_tree is Some ==> a.with_profile(p).no_tree == a.no_tree,
        a.no_tree is None ==> a.with_profile(p).no_tree == p.no_tree,
        a.tree_no_ignore is Some ==> a.with_profile(p).tree_no_ignore == a.tree_no_ignore,
        a.tree_no_ignore is None ==> a.with_profile(p).tree_no_ignore == p.tree_no_ignore,
        a.max_size is Some ==> a.with_profile(p).max_size == a.max_size,
        a.max_size is None ==> a.with_profile(p).max_size == p.max_size,
        a.no_blacklist is Some ==> a.with_profile(p).no_blacklist == a.no_blacklist,
        a.no_blacklist is None ==> a.with_profile(p).no_blacklist == p.no_blacklist,
        a.with_profile(p).profile == a.profile,
        a.with_profile(p).path == a.path,
        a.with_profile(p).dry_run == a.dry_run,
        a.with_profile(p).copy == a.copy,
{
}

/// Options resolve in the order command line, then profile, then the
/// built-in defaults: the size limit, the switches and the pattern lists
/// that a run ends up with are those of the first level that sets them;
/// where no level sets the tree's ignore setting, it follows the content's.
pub proof fn law_command_line_then_profile_then_default(a: Args, p: ProfileConfig)
    ensures
        max_kib_or_default(a.with_profile(p).max_size) == (match a.max_size {
            Some(m) => m,
            None => match p.max_size {
                Some(m) => m,
                None => DEFAULT_MAX_KIB,
            },
        }),
        flag(a.with_profile(p).no_ignore) == (match a.no_ignore {
            Some(b) => b,
            None => flag(p.no_ignore),
        }),
        flag(a.with_profile(p).no_blacklist) == (match a.no_blacklist {
            Some(b) => b,
            None => flag(p.no_blacklist),
        }),
        tree_flag(a.with_profile(p).tree_no_ignore, a.with_profile(p).no_ignore) == (match a.tree_no_ignore {
            Some(b) => b,
            None => match p.tree_no_ignore {
                Some(b) => b,
                None => match a.no_ignore {
                    Some(b) => b,
                    None => flag(p.no_ignore),
                },
            },
        }),
        flag(a.with_profile(p).no_tree) == (match a.no_tree {
            Some(b) => b,
            None => flag(p.no_tree),
        }),
        a.with_profile(p).includes == (if a.includes is Some {
            a.includes
        } else {
            p.includes
        }),
        a.with_profile(p).exclude == (if a.exclude is Some {
            a.exclude
        } else {
            p.exclude
        }),
        a.with_profile(p).spec_resolve(None).1 == (match a.output_path {
            Some(o) => o@,
            None => match p.output_path {
                Some(o) => o@,
                None => default_output_name(None),
            },
        }),
{
}

// ----------------------------------------------------------------------------
// Listing profiles
// ----------------------------------------------------------------------------

impl ConfigDocument {
    /// The positions of the profiles, ordered by name.
    fn sorted_order(&self) -> (order: Vec<usize>)
        ensures
            order.len() == self.names.len(),
            forall|j: int| 0 <= j < order.len() ==> order[j] < self.names.len(),
            forall|a: int, b: int|
                0 <= a < b < order.len() ==> text_lt(
                    #[trigger] self.names[order[a] as int]@,
                    #[trigger] self.names[order[b] as int]@,
                ),
            forall|k: usize| k < self.names.len() ==> #[trigger] order@.contains(k),
    {
        proof {
            use_type_invariant(self);
        }
        let n = self.names.len();
        let mut order: Vec<usize> = Vec::new();
        let mut idx: usize = 0;
        while idx < n
            invariant
                n == self.names.len(),
                self.inv(),
                idx <= n,
                order.len() == idx,
                forall|j: int| 0 <= j < order.len() ==> order[j] < idx,
                forall|a: int, b: int|
                    0 <= a < b < order.len() ==> text_lt(
                        #[trigger] self.names[order[a] as int]@,
                        #[trigger] self.names[order[b] as int]@,
                    ),
                forall|k: usize| k < idx ==> #[trigger] order@.contains(k),
            decreases n - idx,
        {
            let x = chars_of(self.names[idx].as_str());
            let mut pos: usize = 0;
            while pos < order.len() && !text_less(&x, &chars_of(self.names[order[pos]].as_str()))
                invariant
                    n == self.names.len(),
                    idx < n,
                    x@ == self.names[idx as int]@,
                    pos <= order.len(),
                    forall|j: int| 0 <= j < order.len() ==> order[j] < idx,
                    forall|j: int|
                        0 <= j < pos ==> !text_lt(x@, #[trigger] self.names[order[j] as int]@),
                decreases order.len() - pos,
            {
                pos = pos + 1;
            }
            let ghost old_order = order@;
            let ghost xs = x@;
            order.insert(pos, idx);
            proof {
                let o = order@;
                assert(o.len() == old_order.len() + 1);
                assert forall|j: int| 0 <= j < o.len() implies o[j] < idx + 1 by {
                    if j < pos {
                        assert(o[j] == old_order[j]);
                    } else if j > pos {
                        assert(o[j] == old_order[j - 1]);
                    }
                }
                assert forall|a: int, b: int| 0 <= a < b < o.len() implies text_lt(
                    #[trigger] self.names[o[a] as int]@,
                    #[trigger] self.names[o[b] as int]@,
                ) by {
                    if b < pos {
                        assert(o[a] == old_order[a] && o[b] == old_order[b]);
                    } else if b == pos {
                        assert(o[a] == old_order[a]);
                        let ia = old_order[a] as int;
                        assert(ia < idx);
                        assert(self.names[ia]@ != self.names[idx as int]@);
                        lemma_text_lt_total(self.names[ia]@, xs);
                    } else if a < pos {
                        assert(o[a] == old_order[a] && o[b] == old_order[b - 1]);
                    } else if a == pos {
                        assert(o[b] == old_order[b - 1]);
                        assert(text_lt(xs, self.names[old_order[pos as int] as int]@));
                        if b - 1 > pos {
                            lemma_text_lt_transitive(
                                xs,
                                self.names[old_order[pos as int] as int]@,
                                self.names[old_order[b - 1] as int]@,
                            );
                        }
                    } else {
                        assert(o[a] == old_order[a - 1] && o[b] == old_order[b - 1]);
                    }
                }
                assert forall|k: usize| k < idx + 1 implies #[trigger] o.contains(k) by {
                    if k == idx {
                        assert(o[pos as int] == idx);
                    } else {
                        assert(old_order.contains(k));
                        let j = choose|j: int| 0 <= j < old_order.len() && old_order[j] == k;
                        if j < pos {
                            assert(o[j] == old_order[j]);
                        } else {
                            assert(o[j + 1] == old_order[j]);
                        }
                    }
                }
            }
            idx = idx + 1;
        }
        order
    }
}

impl Args {
    /// The profiles of a document ordered by name.
    pub fn sorted_profiles(config_doc: &ConfigDocument) -> (r: Vec<(&String, &ProfileConfig)>)
        ensures
            r.len() == config_doc@.dom().len(),
            forall|i: int|
                0 <= i < r.len() ==> config_doc@.contains_key(r[i].0@) && *r[i].1
                    == config_doc@[r[i].0@],
            forall|i: int, j: int|
                0 <= i < j < r.len() ==> text_lt(#[trigger] r[i].0@, #[trigger] r[j].0@),
            forall|k: Seq<char>|
                config_doc@.contains_key(k) ==> exists|i: int| 0 <= i < r.len() && r[i].0@ == k,
    {
        proof {
            use_type_invariant(config_doc);
            config_doc.lemma_dom_len();
        }
        let order = config_doc.sorted_order();
        let mut r: Vec<(&String, &ProfileConfig)> = Vec::new();
        let n = order.len();
        let mut i: usize = 0;
        while i < n
            invariant
                n == order.len(),
                n == config_doc.names.len(),
                config_doc.inv(),
                i <= n,
                r.len() == i,
                forall|j: int| 0 <= j < order.len() ==> order[j] < config_doc.names.len(),
                forall|j: int|
                    0 <= j < i ==> r[j].0@ == config_doc.names[order[j] as int]@ && *r[j].1
                        == config_doc.profiles[order[j] as int],
            decreases n - i,
        {
            let k = order[i];
            r.push((&config_doc.names[k], &config_doc.profiles[k]));
            i = i + 1;
        }
        proof {
            assert forall|i: int|
                0 <= i < r.len() implies config_doc@.contains_key(r[i].0@) && *r[i].1
                == config_doc@[r[i].0@] by {
                config_doc.lemma_at(order[i] as int);
            }
            assert forall|i: int, j: int| 0 <= i < j < r.len() implies text_lt(
                #[trigger] r[i].0@,
                #[trigger] r[j].0@,
            ) by {
                assert(text_lt(
                    config_doc.names[order[i] as int]@,
                    config_doc.names[order[j] as int]@,
                ));
            }
            assert forall|k: Seq<char>| config_doc@.contains_key(k) implies exists|i: int|
                0 <= i < r.len() && r[i].0@ == k by {
                let p = choose|p: int| config_doc.holds(k, p);
                assert(order@.contains(p as usize));
                let i = choose|i: int| 0 <= i < order.len() && order[i] == p as usize;
                assert(r[i].0@ == k);
            }
        }
        r
    }
}

} // verus!
