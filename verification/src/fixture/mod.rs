//! Process-level differential fixture runner: the data it reads and writes,
//! and the decisions it makes.
//!
//! The runner treats the Lua command-line applications as black boxes. Its
//! process spawning, file system access and JSON encoding happen in the
//! application around this library; everything it decides is here.

use vstd::prelude::*;

pub mod paths;
pub mod regex_support;
pub mod manifest;
pub mod normalize;
pub mod compare;
pub mod run;
pub mod cli;
pub mod locate;

verus! {

/// Version of the fixture manifest schema this runner understands.
pub const MANIFEST_SCHEMA_VERSION: u32 = 1;

/// Schema identifier written into every run artifact.
pub const ARTIFACT_SCHEMA_VERSION: &'static str = "lua-fixture-differential/v1";

/// Inventory counts that a manifest declares.
#[derive(Clone, Copy, Debug)]
pub struct FixtureInventory {
    pub m0_baseline: usize,
    pub added_differential: usize,
    pub current_total: usize,
}

/// Role of one fixture file.
#[derive(Clone, Copy, Debug, PartialEq, Eq, Structural)]
pub enum FixtureKind {
    Entry,
    Helper,
    Negative,
    ManualOutput,
}

/// An engine whose behaviour a fixture is compared against.
#[derive(Clone, Copy, Debug, PartialEq, Eq, PartialOrd, Ord, Structural)]
pub enum Oracle {
    LuaRust,
    LuaCpp,
    Lua51,
}

/// Which captured text a normalization rule applies to.
#[derive(Clone, Copy, Debug, PartialEq, Eq, Structural)]
pub enum NormalizationTarget {
    Stdout,
    Stderr,
    Both,
    SideEffectPath,
}

/// How a normalization rule's pattern is matched.
#[derive(Clone, Copy, Debug, PartialEq, Eq, Structural)]
pub enum NormalizationKind {
    Literal,
    Regex,
}

/// One output normalization.
#[derive(Clone, Debug)]
pub struct NormalizationRule {
    pub target: NormalizationTarget,
    pub kind: NormalizationKind,
    pub pattern: String,
    pub replacement: String,
}

/// One fixture record of the manifest.
#[derive(Clone, Debug)]
pub struct FixtureCase {
    pub id: String,
    pub path: String,
    pub kind: FixtureKind,
    pub working_directory: String,
    pub args: Vec<String>,
    /// Environment variables, as (name, value) pairs with distinct names in
    /// ascending order (see `wf`).
    pub environment: Vec<(String, String)>,
    pub expected_exit: i32,
    pub timeout_ms: u64,
    pub compare_stdout: bool,
    pub compare_stderr: bool,
    pub compare_side_effects: bool,
    pub side_effects: Vec<String>,
    pub normalizations: Vec<NormalizationRule>,
    pub oracles: Vec<Oracle>,
}

/// The fixture manifest.
#[derive(Clone, Debug)]
pub struct FixtureManifest {
    pub schema_version: u32,
    pub fixture_root: String,
    pub inventory: FixtureInventory,
    pub cases: Vec<FixtureCase>,
}

/// The names of an environment, in order.
pub open spec fn environment_names(environment: Seq<(String, String)>) -> Seq<Seq<char>> {
    environment.map_values(|entry: (String, String)| entry.0@)
}

impl FixtureCase {
    /// The environment is a map: its names are distinct and in ascending
    /// order.
    pub open spec fn wf(self) -> bool {
        crate::text::strictly_ascending(environment_names(self.environment@))
    }
}

impl FixtureManifest {
    /// Every case's environment is a map, with distinct names in ascending
    /// order.
    pub open spec fn wf(self) -> bool {
        forall|i: int| 0 <= i < self.cases@.len() ==> (#[trigger] self.cases@[i]).wf()
    }
}

/// A selection of fixtures to run.
#[derive(Clone, Copy, Debug, PartialEq, Eq, Structural)]
pub enum Suite {
    NonOfficial,
    Differential,
    Official,
    All,
}

/// Everything a run needs to know, with paths as strings.
#[derive(Clone, Debug)]
pub struct RunConfiguration {
    pub repo_root: String,
    pub manifest_path: String,
    pub rust_executable: String,
    pub cpp_executable: Option<String>,
    pub artifact_path: String,
    pub suite: Suite,
    /// Case identifiers to run; empty means every case of the suite.
    pub case_ids: Vec<String>,
    pub include_helpers: bool,
}

/// Engine executables of one run.
#[derive(Clone, Debug)]
pub struct EnginePathsArtifact {
    pub lua_rust: String,
    pub lua_cpp: Option<String>,
}

/// Per-status case counts of one run.
#[derive(Clone, Copy, Debug)]
pub struct RunSummary {
    pub selected: usize,
    pub executed: usize,
    pub helpers_skipped: usize,
    pub matches: usize,
    pub rust_only_expected: usize,
    pub differences: usize,
    pub runner_errors: usize,
    pub timed_out: usize,
}

/// Outcome of one case.
#[derive(Clone, Copy, Debug, PartialEq, Eq, Structural)]
pub enum CaseStatus {
    Match,
    RustOnlyExpected,
    Difference,
    RunnerError,
    HelperSkipped,
}

/// Raw and normalized bytes of one captured stream.
#[derive(Clone, Debug)]
pub struct ByteArtifact {
    pub byte_length: usize,
    pub hex: String,
    pub lossy_text: String,
    pub normalized_byte_length: usize,
    pub normalized_hex: String,
    pub normalized_lossy_text: String,
}

/// One file left behind by a fixture.
#[derive(Clone, Debug)]
pub struct SideEffectArtifact {
    pub path: String,
    pub normalized_path: String,
    pub byte_length: usize,
    pub content_hex: String,
}

/// Observable behaviour of one engine on one case.
#[derive(Clone, Debug)]
pub struct ExecutionArtifact {
    pub engine: String,
    pub executable: String,
    pub argv: Vec<String>,
    pub working_directory: String,
    pub duration_ms: u128,
    pub timed_out: bool,
    pub exit_code: Option<i32>,
    pub expected_exit_matched: bool,
    pub spawn_error: Option<String>,
    pub stdout: ByteArtifact,
    pub stderr: ByteArtifact,
    pub side_effects: Vec<SideEffectArtifact>,
}

/// Comparison of the two engines on one case.
#[derive(Clone, Debug)]
pub struct ComparisonArtifact {
    pub timeout_equal: bool,
    pub exit_code_equal: bool,
    pub stdout_compared: bool,
    pub stdout_equal: Option<bool>,
    pub stderr_compared: bool,
    pub stderr_equal: Option<bool>,
    pub side_effects_compared: bool,
    pub side_effects_equal: Option<bool>,
    pub matched: bool,
    pub stdout_diff: Option<String>,
    pub stderr_diff: Option<String>,
    pub side_effects_diff: Option<String>,
}

/// Everything recorded about one case.
#[derive(Clone, Debug)]
pub struct CaseArtifact {
    pub id: String,
    pub path: String,
    pub kind: FixtureKind,
    pub expected_exit: i32,
    pub timeout_ms: u64,
    pub oracles: Vec<Oracle>,
    pub status: CaseStatus,
    pub skip_reason: Option<String>,
    pub lua_rust: Option<ExecutionArtifact>,
    pub lua_cpp: Option<ExecutionArtifact>,
    pub comparison: Option<ComparisonArtifact>,
}

/// The artifact of one run.
#[derive(Clone, Debug)]
pub struct RunArtifact {
    pub schema_version: String,
    pub manifest_schema_version: u32,
    pub fixture_inventory: FixtureInventory,
    pub runner_version: String,
    pub generated_at_unix_ms: u128,
    pub repository_root: String,
    pub manifest_path: String,
    pub suite: String,
    pub engines: EnginePathsArtifact,
    pub summary: RunSummary,
    pub cases: Vec<CaseArtifact>,
}

} // verus!
