//! The debugging session around the core: where the session keeps its
//! files, how a `FILE:LINE` location is read, which files get which
//! instrumentation, and which captured variables are shown.

use vstd::prelude::*;
use crate::text::{parsed_usize, parse_usize, push_str, str_eq, suffix};
use crate::parse::DebugNode;

verus! {

// ---------------------------------------------------------------------------
// Locations and arguments

/// Why a `FILE:LINE` location was refused.
#[derive(Clone, Copy, Debug, PartialEq, Eq, Structural)]
pub enum LocationError {
    /// The text has no `:`.
    InvalidFormat,
    /// The text after the last `:` is not a decimal number.
    InvalidLineNumber,
}

/// The position of the last `:`, if any.
pub open spec fn last_colon(s: Seq<char>) -> Option<int>
    decreases s.len(),
{
    if s.len() == 0 {
        None
    } else if s.last() == ':' {
        Some(s.len() - 1)
    } else {
        last_colon(s.drop_last())
    }
}

/// The file and line of a `FILE:LINE` location: split at the last `:`.
pub open spec fn location_of(s: Seq<char>) -> Result<(Seq<char>, nat), LocationError> {
    match last_colon(s) {
        None => Err(LocationError::InvalidFormat),
        Some(i) => match parsed_usize(s.subrange(i + 1, s.len() as int)) {
            None => Err(LocationError::InvalidLineNumber),
            Some(n) => Ok((s.subrange(0, i), n)),
        },
    }
}

/// Reads a `FILE:LINE` location, split at the last `:`.
pub fn try_get_file_line_format(input: &str) -> (r: Result<(String, usize), LocationError>)
    ensures
        r matches Ok((f, n)) ==> location_of(input@) == Ok::<(Seq<char>, nat), LocationError>((f@, n as nat)),
        r matches Err(e) ==> location_of(input@) == Err::<(Seq<char>, nat), LocationError>(e),
{
    let n = input.unicode_len();
    let mut i: usize = n;
    assert(input@.subrange(0, n as int) =~= input@);
    while i > 0 && input.get_char(i - 1) != ':'
        invariant
            n == input@.len(),
            i <= n,
            last_colon(input@) == last_colon(input@.subrange(0, i as int)),
        decreases i,
    {
        assert(input@.subrange(0, i as int).drop_last() =~= input@.subrange(0, i - 1));
        i -= 1;
    }
    if i == 0 {
        assert(input@.subrange(0, 0) =~= Seq::<char>::empty());
        return Err(LocationError::InvalidFormat);
    }
    assert(last_colon(input@.subrange(0, i as int)) == Some(i - 1));
    let tail = suffix(input, i);
    match parse_usize(tail.as_str()) {
        None => Err(LocationError::InvalidLineNumber),
        Some(line) => {
            let file = String::from_str(input.substring_char(0, i - 1));
            Ok((file, line))
        },
    }
}

/// The arguments with the `var` subcommand put in front of a bare
/// `FILE:LINE` location.
pub open spec fn processed_args(args: Seq<Seq<char>>) -> Seq<Seq<char>> {
    if args.len() > 1 && location_of(args[1]) is Ok {
        args.insert(1, "var"@)
    } else {
        args
    }
}

/// Puts the `var` subcommand in front of a bare `FILE:LINE` location.
pub fn get_processed_args(args: Vec<String>) -> (r: Vec<String>)
    ensures
        r.deep_view() == processed_args(args.deep_view()),
{
    let mut args = args;
    if args.len() > 1 {
        let ok = match try_get_file_line_format(args[1].as_str()) {
            Ok(_) => true,
            Err(_) => false,
        };
        if ok {
            let ghost before = args.deep_view();
            args.insert(1, String::from_str("var"));
            assert(args.deep_view() =~= before.insert(1, "var"@));
        }
    }
    args
}

/// The source file that a location names: locations are given without the
/// `src/` directory.
pub fn source_file_of(file: &str) -> (r: String)
    ensures
        r@ == "src/"@ + file@,
{
    let mut r = String::from_str("src/");
    push_str(&mut r, file);
    r
}

// ---------------------------------------------------------------------------
// Where the session keeps its files

/// `base` joined with a relative component, with one `/` between.
pub open spec fn joined_path(base: Seq<char>, part: Seq<char>) -> Seq<char> {
    if base.len() > 0 && base.last() == '/' { base + part } else { base + "/"@ + part }
}

fn join_path(base: &str, part: &str) -> (r: String)
    ensures
        r@ == joined_path(base@, part@),
{
    let n = base.unicode_len();
    let mut r = String::from_str(base);
    if n > 0 && base.get_char(n - 1) == '/' {
        push_str(&mut r, part);
    } else {
        push_str(&mut r, "/");
        push_str(&mut r, part);
    }
    r
}

/// Relies on `dirs::home_dir`: the home directory, if the environment has
/// one. Nothing is assumed of its value.
#[verifier::external_body]
fn home_dir() -> (r: Option<String>) {
    dirs::home_dir().map(|p| p.to_string_lossy().into_owned())
}

/// The session's cache directory: `.cache/solana_debugger` under the home
/// directory.
pub open spec fn cache_dir_of(home: Seq<char>) -> Seq<char> {
    joined_path(joined_path(home, ".cache"@), "solana_debugger"@)
}

/// The session's cache directory under a home directory.
pub fn cache_dir_for(home: &str) -> (r: String)
    ensures
        r@ == cache_dir_of(home@),
{
    let c = join_path(home, ".cache");
    join_path(c.as_str(), "solana_debugger")
}

/// The session's cache directory under the home directory, if there is one.
pub fn get_cache_dir() -> (r: Option<String>)
    ensures
        r matches Some(c) ==> exists|h: Seq<char>| c@ == #[trigger] cache_dir_of(h),
{
    match home_dir() {
        Some(h) => {
            let d = cache_dir_for(h.as_str());
            assert(d@ == cache_dir_of(h@));
            Some(d)
        },
        None => None,
    }
}

/// The directory that the instrumented copy is built in.
pub fn get_build_dir(cache_dir: &str) -> (r: String)
    ensures
        r@ == joined_path(cache_dir@, "build"@),
{
    join_path(cache_dir, "build")
}

/// The build's artifact directory, outside the build directory.
pub fn get_target_dir(cache_dir: &str) -> (r: String)
    ensures
        r@ == joined_path(cache_dir@, "target"@),
{
    join_path(cache_dir, "target")
}

/// The session's configuration file.
pub fn get_config_path(cache_dir: &str) -> (r: String)
    ensures
        r@ == joined_path(cache_dir@, "config.json"@),
{
    join_path(cache_dir, "config.json")
}

/// The program under inspection and the folder with its input.
pub struct DebuggerConfig {
    pub program_path: String,
    pub input_path: String,
}

/// Why a configuration is not usable.
#[derive(Clone, Copy, Debug, PartialEq, Eq, Structural)]
pub enum ConfigError {
    ProgramPathNotDir,
    InputPathNotDir,
}

impl DebuggerConfig {
    /// Checks the configuration, given whether each of its paths is a
    /// directory: the program path is checked first.
    pub fn validate(&self, program_is_dir: bool, input_is_dir: bool) -> (r: Result<(), ConfigError>)
        ensures
            !program_is_dir ==> r == Err::<(), ConfigError>(ConfigError::ProgramPathNotDir),
            program_is_dir && !input_is_dir ==> r == Err::<(), ConfigError>(ConfigError::InputPathNotDir),
            program_is_dir && input_is_dir ==> r is Ok,
    {
        if !program_is_dir {
            return Err(ConfigError::ProgramPathNotDir);
        }
        if !input_is_dir {
            return Err(ConfigError::InputPathNotDir);
        }
        Ok(())
    }
}

// ---------------------------------------------------------------------------
// The project and its instrumented copy

/// The shape of the project to instrument.
pub enum InstInputProjectType {
    /// A package inside a workspace.
    Workspace { program_path: String, root_path: String },
    /// A package on its own.
    Package { program_path: String },
}

/// The project to instrument and its build artifact directory (skipped
/// when copying).
pub struct InstInputProject {
    pub project_type: InstInputProjectType,
    pub target_dir: String,
}

/// Which instrumentation to perform.
pub enum InstProjectSpec {
    /// Probe one line of one file.
    SingleLine { file: String, line: usize },
}

/// What to instrument, and where the copy goes (its contents are replaced).
pub struct InstProjectArgs {
    pub output_dir: String,
    pub input_project: InstInputProject,
    pub inst_spec: InstProjectSpec,
}

/// The instrumented copy of the project.
pub struct InstProjectInfo {
    pub program_path: String,
    pub workspace_root: String,
    pub is_workspace: bool,
}

/// What the build of the copy needs.
pub struct CompileProjectArgs {
    /// The package to build.
    pub program_path: String,
    /// The workspace root, against which error file names are resolved.
    pub workspace_root: String,
    /// A separate artifact directory, if any.
    pub target_dir: Option<String>,
}

/// What the package manager reports of the program under inspection.
pub struct DebugeeProjectInfo {
    pub program_path: String,
    pub workspace_root: String,
    pub is_workspace: bool,
    pub target_directory: String,
    pub target_name: String,
}

// ---------------------------------------------------------------------------
// What each file of the copy gets

/// How one source file is instrumented.
pub struct InstAstSpec {
    /// Declare the module holding the fixed serializers.
    pub mod_fixed_serialization: bool,
    /// Enable the specialization feature that the serializers need.
    pub feature_min_specialization: bool,
    pub debugee_file_path: String,
    /// The line to probe, in the target file only.
    pub line_inst: Option<usize>,
    /// Generate serializers for the file's own types.
    pub custom_type_serialization: bool,
}

/// The crate root of the copy: `src/lib.rs`, as a whole path component.
pub open spec fn is_crate_root(out: Seq<char>) -> bool {
    out == "src/lib.rs"@ || (out.len() >= 11 && out.subrange(out.len() - 11, out.len() as int) == "/src/lib.rs"@)
}

/// Whether a file of the copy is its crate root.
pub fn is_main_module(out: &str) -> (r: bool)
    ensures
        r == is_crate_root(out@),
{
    proof { reveal_strlit("/src/lib.rs"); }
    let n = out.unicode_len();
    if str_eq(out, "src/lib.rs") {
        return true;
    }
    if n < 11 {
        return false;
    }
    let t = suffix(out, n - 11);
    str_eq(t.as_str(), "/src/lib.rs")
}

/// How a file is instrumented: every file gets serializers for its types;
/// the crate root also gets the serializer module and the feature; only the
/// target file gets the probe.
pub fn ast_spec_for(output_file: &str, is_target: bool, line: usize) -> (r: InstAstSpec)
    ensures
        r.mod_fixed_serialization == is_crate_root(output_file@),
        r.feature_min_specialization == is_crate_root(output_file@),
        r.line_inst == (if is_target { Some(line) } else { None::<usize> }),
        r.custom_type_serialization,
        r.debugee_file_path@ == Seq::<char>::empty(),
{
    let main = is_main_module(output_file);
    let s = String::new();
    InstAstSpec {
        mod_fixed_serialization: main,
        feature_min_specialization: main,
        debugee_file_path: s,
        line_inst: if is_target { Some(line) } else { None },
        custom_type_serialization: true,
    }
}

/// A hidden file or directory (`.git`, ...): its name starts with `.`.
pub fn is_hidden_path(name: &str) -> (r: bool)
    ensures
        r == (name@.len() > 0 && name@[0] == '.'),
{
    let n = name.unicode_len();
    n > 0 && name.get_char(0) == '.'
}

// ---------------------------------------------------------------------------
// What is shown

/// Which captured variables to show.
pub enum VariableFilter {
    All,
    Select(Vec<String>),
}

/// The most children shown under one node.
pub const PRINT_MAX_CHILDREN: usize = 15;

/// How many children of a node are shown, and whether an ellipsis follows.
pub fn shown_children(count: usize) -> (r: (usize, bool))
    ensures
        r.0 == if count <= PRINT_MAX_CHILDREN { count } else { PRINT_MAX_CHILDREN },
        r.1 == (count > PRINT_MAX_CHILDREN),
{
    if count <= PRINT_MAX_CHILDREN {
        (count, false)
    } else {
        (PRINT_MAX_CHILDREN, true)
    }
}

/// The first node with this name, if any.
pub open spec fn first_named(nodes: Seq<DebugNode>, name: Seq<char>) -> Option<int>
    decreases nodes.len(),
{
    if nodes.len() == 0 {
        None
    } else {
        match first_named(nodes.drop_last(), name) {
            Some(i) => Some(i),
            None => if nodes.last().name@ == name { Some(nodes.len() - 1) } else { None },
        }
    }
}

/// The position of the first captured variable with this name.
pub fn find_node(nodes: &Vec<DebugNode>, name: &str) -> (r: Option<usize>)
    ensures
        r matches Some(i) ==> first_named(nodes@, name@) == Some(i as int),
        r is None ==> first_named(nodes@, name@) is None,
{
    let mut i: usize = 0;
    assert(nodes@.subrange(0, 0) =~= Seq::<DebugNode>::empty());
    while i < nodes.len()
        invariant
            i <= nodes@.len(),
            first_named(nodes@.subrange(0, i as int), name@) is None,
        decreases nodes@.len() - i,
    {
        assert(nodes@.subrange(0, i + 1).drop_last() =~= nodes@.subrange(0, i as int));
        if str_eq(nodes[i].name.as_str(), name) {
            proof { lemma_first_named_prefix(nodes@, name@, i as int); }
            return Some(i);
        }
        i += 1;
    }
    assert(nodes@.subrange(0, nodes@.len() as int) =~= nodes@);
    None
}

proof fn lemma_first_named_prefix(v: Seq<DebugNode>, name: Seq<char>, i: int)
    requires
        0 <= i < v.len(),
        first_named(v.subrange(0, i), name) is None,
        v[i].name@ == name,
    ensures
        first_named(v, name) == Some(i),
    decreases v.len(),
{
    if v.len() - 1 > i {
        assert(v.drop_last().subrange(0, i) =~= v.subrange(0, i));
        lemma_first_named_prefix(v.drop_last(), name, i);
    } else {
        assert(v.drop_last() =~= v.subrange(0, i));
    }
}

} // verus!
