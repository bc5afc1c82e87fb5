//! Workflow and component configuration.
//!
//! A workflow names an ordered subset of the components and provides one
//! configuration record per component.  A selected component without a
//! record falls back to the documented defaults, with a warning.

use vstd::prelude::*;

verus! {

use crate::log::LogLevel;
use crate::path::join_segments;
use crate::path::join_with;
use crate::text::str_eq;
use vstd::string::StrSliceExecFns;
use vstd::string::StringExecFns;

/// Lower-case an ASCII letter; other characters stay themselves.
pub open spec fn lower_char(c: char) -> char {
    if 'A' <= c && c <= 'Z' {
        (((c as u8) + 32) as char)
    } else {
        c
    }
}

/// Character-wise ASCII lower-casing.
pub open spec fn lower_seq(s: Seq<char>) -> Seq<char> {
    s.map_values(|c: char| lower_char(c))
}

/// The lower-case string for an upper-case ASCII letter.
fn lower_letter(c: char) -> (r: &'static str)
    requires
        'A' <= c && c <= 'Z',
    ensures
        r@ =~= seq![lower_char(c)],
{
    proof {
        reveal_strlit("a");
        reveal_strlit("b");
        reveal_strlit("c");
        reveal_strlit("d");
        reveal_strlit("e");
        reveal_strlit("f");
        reveal_strlit("g");
        reveal_strlit("h");
        reveal_strlit("i");
        reveal_strlit("j");
        reveal_strlit("k");
        reveal_strlit("l");
        reveal_strlit("m");
        reveal_strlit("n");
        reveal_strlit("o");
        reveal_strlit("p");
        reveal_strlit("q");
        reveal_strlit("r");
        reveal_strlit("s");
        reveal_strlit("t");
        reveal_strlit("u");
        reveal_strlit("v");
        reveal_strlit("w");
        reveal_strlit("x");
        reveal_strlit("y");
        reveal_strlit("z");
    }
    if c == 'A' {
        "a"
    } else if c == 'B' {
        "b"
    } else if c == 'C' {
        "c"
    } else if c == 'D' {
        "d"
    } else if c == 'E' {
        "e"
    } else if c == 'F' {
        "f"
    } else if c == 'G' {
        "g"
    } else if c == 'H' {
        "h"
    } else if c == 'I' {
        "i"
    } else if c == 'J' {
        "j"
    } else if c == 'K' {
        "k"
    } else if c == 'L' {
        "l"
    } else if c == 'M' {
        "m"
    } else if c == 'N' {
        "n"
    } else if c == 'O' {
        "o"
    } else if c == 'P' {
        "p"
    } else if c == 'Q' {
        "q"
    } else if c == 'R' {
        "r"
    } else if c == 'S' {
        "s"
    } else if c == 'T' {
        "t"
    } else if c == 'U' {
        "u"
    } else if c == 'V' {
        "v"
    } else if c == 'W' {
        "w"
    } else if c == 'X' {
        "x"
    } else if c == 'Y' {
        "y"
    } else {
        "z"
    }
}

/// Lower-case the ASCII letters of `s`; other characters stay themselves.
pub fn ascii_lowercase(s: &str) -> (r: String)
    ensures
        r@ == lower_seq(s@),
{
    let n = s.unicode_len();
    let mut r = String::new();
    let mut i: usize = 0;
    while i < n
        invariant
            i <= n,
            n == s@.len(),
            r@ == lower_seq(s@).take(i as int),
        decreases n - i,
    {
        let c = s.get_char(i);
        if c >= 'A' && c <= 'Z' {
            r.append(lower_letter(c));
        } else {
            let one = s.substring_char(i, i + 1);
            proof {
                assert(one@ =~= seq![s@[i as int]]);
            }
            r.append(one);
        }
        proof {
            assert(lower_seq(s@).take(i + 1) =~= lower_seq(s@).take(i as int).push(
                lower_char(s@[i as int]),
            ));
        }
        i += 1;
    }
    proof {
        assert(lower_seq(s@).take(n as int) =~= lower_seq(s@));
    }
    r
}

/// Whether the component list selects the given lower-case name.
pub open spec fn selects(components: Seq<Seq<char>>, name: Seq<char>) -> bool {
    exists|i: int| 0 <= i < components.len() && lower_seq(#[trigger] components[i]) == name
}

/// The global command-line configuration.
pub struct VerieasyConfig {
    /// Path to the workflow configuration file.
    pub config: String,
    /// Log level.
    pub log: LogLevel,
    /// File from which to collect preconditions, if any.
    pub preconditions: Option<String>,
    /// Strict mode: stop on the first testing failure.
    pub strict: bool,
    /// First source file, usually the original source.
    pub file1: String,
    /// Second source file, usually the refactored source.
    pub file2: String,
}

/// Configuration for the symbolic-prover component.
pub struct KaniConfig {
    /// Harness project path.
    pub harness_path: String,
    /// Output capture path.
    pub output_path: String,
    /// Per-harness timeout in seconds.
    pub timeout_secs: u64,
    /// Whether to generate a new harness.
    pub gen_harness: bool,
    /// Keep the harness project afterwards.
    pub keep_harness: bool,
    /// Keep the output file afterwards.
    pub keep_output: bool,
    /// Gate inputs on the preconditions.
    pub use_preconditions: bool,
    /// Loop unwind bound, if any.
    pub loop_unwind: Option<u32>,
}

impl Default for KaniConfig {
    /// The documented defaults.
    fn default() -> (r: KaniConfig)
        ensures
            r.harness_path@ == "kani_harness"@,
            r.output_path@ == "kani.tmp"@,
            r.timeout_secs == 300,
            r.gen_harness,
            !r.keep_harness,
            !r.keep_output,
            r.use_preconditions,
            r.loop_unwind is None,
    {
        KaniConfig {
            harness_path: "kani_harness".to_owned(),
            output_path: "kani.tmp".to_owned(),
            timeout_secs: 300,
            gen_harness: true,
            keep_harness: false,
            keep_output: false,
            use_preconditions: true,
            loop_unwind: None,
        }
    }
}

/// Configuration for the IR-checker component.
pub struct Alive2Config {
    /// Path to the checker binary.
    pub alive2_path: String,
    /// Output capture path.
    pub output_path: String,
    /// Keep the output file afterwards.
    pub keep_output: bool,
}

impl Default for Alive2Config {
    /// The documented defaults.
    fn default() -> (r: Alive2Config)
        ensures
            r.alive2_path@ == "alive2-tv"@,
            r.output_path@ == "alive2.tmp"@,
            !r.keep_output,
    {
        Alive2Config {
            alive2_path: "alive2-tv".to_owned(),
            output_path: "alive2.tmp".to_owned(),
            keep_output: false,
        }
    }
}

/// Configuration for the differential-fuzzing component.
pub struct DiffFuzzConfig {
    /// Harness project path.
    pub harness_path: String,
    /// Output capture path.
    pub output_path: String,
    /// Execution budget.
    pub executions: u32,
    /// Number of initial inputs.
    pub initial_inputs: usize,
    /// Length of each initial input.
    pub input_len: usize,
    /// Keep the harness project afterwards.
    pub keep_harness: bool,
    /// Keep the output file afterwards.
    pub keep_output: bool,
    /// Gate inputs on the preconditions.
    pub use_preconditions: bool,
    /// Catch panics in the targets.
    pub catch_panic: bool,
    /// Write a harness-local log.
    pub harness_log: bool,
    /// A command to run before fuzzing, if any.
    pub pre_fuzz_cmd: Option<String>,
}

impl Default for DiffFuzzConfig {
    /// The documented defaults.
    fn default() -> (r: DiffFuzzConfig)
        ensures
            r.harness_path@ == "df_harness"@,
            r.output_path@ == "df.tmp"@,
            r.executions == 1000,
            r.initial_inputs == 16,
            r.input_len == 131072,
            !r.keep_harness,
            !r.keep_output,
            r.use_preconditions,
            r.catch_panic,
            r.harness_log,
            r.pre_fuzz_cmd is None,
    {
        DiffFuzzConfig {
            harness_path: "df_harness".to_owned(),
            output_path: "df.tmp".to_owned(),
            executions: 1000,
            initial_inputs: 16,
            input_len: 131072,
            keep_harness: false,
            keep_output: false,
            use_preconditions: true,
            catch_panic: true,
            harness_log: true,
            pre_fuzz_cmd: None,
        }
    }
}

/// Configuration for the property-testing component.
pub struct PBTConfig {
    /// Harness project path.
    pub harness_path: String,
    /// Output capture path.
    pub output_path: String,
    /// Number of test cases.
    pub test_cases: usize,
    /// Timeout in seconds.
    pub timeout_secs: u64,
    /// Keep the harness project afterwards.
    pub keep_harness: bool,
    /// Keep the output file afterwards.
    pub keep_output: bool,
    /// Gate inputs on the preconditions.
    pub use_preconditions: bool,
}

impl Default for PBTConfig {
    /// The documented defaults.
    fn default() -> (r: PBTConfig)
        ensures
            r.harness_path@ == "pbt_harness"@,
            r.output_path@ == "pbt.tmp"@,
            r.test_cases == 10000,
            r.timeout_secs == 60,
            !r.keep_harness,
            !r.keep_output,
            r.use_preconditions,
    {
        PBTConfig {
            harness_path: "pbt_harness".to_owned(),
            output_path: "pbt.tmp".to_owned(),
            test_cases: 10000,
            timeout_secs: 60,
            keep_harness: false,
            keep_output: false,
            use_preconditions: true,
        }
    }
}

/// Whether the component list names `name`, compared after ASCII
/// lower-casing.
pub fn selects_name(components: &Vec<String>, name: &str) -> (r: bool)
    ensures
        r == selects(component_views(components@), name@),
{
    let ghost cv = component_views(components@);
    let mut i: usize = 0;
    while i < components.len()
        invariant
            i <= components@.len(),
            cv == component_views(components@),
            cv.len() == components@.len(),
            forall|j: int| 0 <= j < i ==> lower_seq(#[trigger] cv[j]) != name@,
        decreases components@.len() - i,
    {
        let lowered = ascii_lowercase(components[i].as_str());
        if str_eq(lowered.as_str(), name) {
            proof {
                assert(cv[i as int] == components@[i as int]@);
                assert(lower_seq(cv[i as int]) == name@);
            }
            return true;
        }
        proof {
            assert(cv[i as int] == components@[i as int]@);
        }
        i += 1;
    }
    proof {
        if selects(cv, name@) {
            let w = choose|j: int| 0 <= j < cv.len() && lower_seq(#[trigger] cv[j]) == name@;
            assert(lower_seq(cv[w]) != name@);
        }
    }
    false
}

/// The documented default values of the symbolic-prover record.
pub open spec fn kani_defaulted(k: KaniConfig) -> bool {
    &&& k.harness_path@ == "kani_harness"@
    &&& k.output_path@ == "kani.tmp"@
    &&& k.timeout_secs == 300
    &&& k.gen_harness
    &&& !k.keep_harness
    &&& !k.keep_output
    &&& k.use_preconditions
    &&& k.loop_unwind is None
}

/// The documented default values of the property-testing record.
pub open spec fn pbt_defaulted(p: PBTConfig) -> bool {
    &&& p.harness_path@ == "pbt_harness"@
    &&& p.output_path@ == "pbt.tmp"@
    &&& p.test_cases == 10000
    &&& p.timeout_secs == 60
    &&& !p.keep_harness
    &&& !p.keep_output
    &&& p.use_preconditions
}

/// The documented default values of the IR-checker record.
pub open spec fn alive2_defaulted(a: Alive2Config) -> bool {
    &&& a.alive2_path@ == "alive2-tv"@
    &&& a.output_path@ == "alive2.tmp"@
    &&& !a.keep_output
}

/// The documented default values of the differential-fuzzing record.
pub open spec fn diff_fuzz_defaulted(d: DiffFuzzConfig) -> bool {
    &&& d.harness_path@ == "df_harness"@
    &&& d.output_path@ == "df.tmp"@
    &&& d.executions == 1000
    &&& d.initial_inputs == 16
    &&& d.input_len == 131072
    &&& !d.keep_harness
    &&& !d.keep_output
    &&& d.use_preconditions
    &&& d.catch_panic
    &&& d.harness_log
    &&& d.pre_fuzz_cmd is None
}

/// The views of the warning lines.
pub open spec fn warning_views(ws: Seq<String>) -> Seq<Seq<char>> {
    ws.map_values(|s: String| s@)
}

/// The warning emitted when the symbolic prover is selected without a
/// configuration record.
pub open spec fn kani_missing_warning() -> Seq<char> {
    "Component `Kani` is selected in workflow but no configuration found. Using default configuration."@
}

/// The warning emitted when property testing is selected without a
/// configuration record.
pub open spec fn pbt_missing_warning() -> Seq<char> {
    "Component `PBT` is selected in workflow but no configuration found. Using default configuration."@
}

/// The warning emitted when the IR checker is selected without a
/// configuration record.
pub open spec fn alive2_missing_warning() -> Seq<char> {
    "Component `Alive2` is selected in workflow but no configuration found. Using default configuration."@
}

/// The warning emitted when differential fuzzing is selected without a
/// configuration record.
pub open spec fn diff_fuzz_missing_warning() -> Seq<char> {
    "Component `Differential Fuzzing` is selected in workflow but no configuration found. Using default configuration."@
}

/// The workflow: an ordered component list plus per-component records.
pub struct WorkflowConfig {
    /// The selected components, in order.
    pub components: Vec<String>,
    /// Symbolic-prover configuration.
    pub kani: Option<KaniConfig>,
    /// IR-checker configuration.
    pub alive2: Option<Alive2Config>,
    /// Differential-fuzzing configuration.
    pub diff_fuzz: Option<DiffFuzzConfig>,
    /// Property-testing configuration.
    pub pbt: Option<PBTConfig>,
}

/// The views of the component names.
pub open spec fn component_views(cs: Seq<String>) -> Seq<Seq<char>> {
    cs.map_values(|s: String| s@)
}

impl WorkflowConfig {
    /// Fill in the documented defaults for every selected component that has
    /// no configuration record, and report one warning line per filled
    /// default.
    pub fn fill_defaults(self) -> (r: (WorkflowConfig, Vec<String>))
        ensures
            (self.kani is None && r.0.kani is Some) ==> kani_defaulted(r.0.kani->0),
            (self.pbt is None && r.0.pbt is Some) ==> pbt_defaulted(r.0.pbt->0),
            (self.alive2 is None && r.0.alive2 is Some) ==> alive2_defaulted(r.0.alive2->0),
            (self.diff_fuzz is None && r.0.diff_fuzz is Some) ==> diff_fuzz_defaulted(
                r.0.diff_fuzz->0,
            ),
            warning_views(r.1@) == (if self.kani is None && selects(
                component_views(self.components@),
                "kani"@,
            ) {
                seq![kani_missing_warning()]
            } else {
                Seq::<Seq<char>>::empty()
            }) + (if self.pbt is None && selects(component_views(self.components@), "pbt"@) {
                seq![pbt_missing_warning()]
            } else {
                Seq::<Seq<char>>::empty()
            }) + (if self.alive2 is None && selects(
                component_views(self.components@),
                "alive2"@,
            ) {
                seq![alive2_missing_warning()]
            } else {
                Seq::<Seq<char>>::empty()
            }) + (if self.diff_fuzz is None && (selects(
                component_views(self.components@),
                "difffuzz"@,
            ) || selects(component_views(self.components@), "diff-fuzz"@) || selects(
                component_views(self.components@),
                "diff_fuzz"@,
            )) {
                seq![diff_fuzz_missing_warning()]
            } else {
                Seq::<Seq<char>>::empty()
            }),
            r.0.components == self.components,
            self.kani is Some ==> r.0.kani == self.kani,
            self.pbt is Some ==> r.0.pbt == self.pbt,
            self.alive2 is Some ==> r.0.alive2 == self.alive2,
            self.diff_fuzz is Some ==> r.0.diff_fuzz == self.diff_fuzz,
            r.0.kani is Some <==> (self.kani is Some || selects(
                component_views(self.components@),
                "kani"@,
            )),
            r.0.pbt is Some <==> (self.pbt is Some || selects(
                component_views(self.components@),
                "pbt"@,
            )),
            r.0.alive2 is Some <==> (self.alive2 is Some || selects(
                component_views(self.components@),
                "alive2"@,
            )),
            r.0.diff_fuzz is Some <==> (self.diff_fuzz is Some || selects(
                component_views(self.components@),
                "difffuzz"@,
            ) || selects(component_views(self.components@), "diff-fuzz"@) || selects(
                component_views(self.components@),
                "diff_fuzz"@,
            )),
    {
        proof {
            reveal_strlit("kani");
            reveal_strlit("pbt");
            reveal_strlit("alive2");
            reveal_strlit("difffuzz");
            reveal_strlit("diff-fuzz");
            reveal_strlit("diff_fuzz");
        }
        proof {
            reveal_strlit(
                "Component `Kani` is selected in workflow but no configuration found. Using default configuration.",
            );
            reveal_strlit(
                "Component `PBT` is selected in workflow but no configuration found. Using default configuration.",
            );
            reveal_strlit(
                "Component `Alive2` is selected in workflow but no configuration found. Using default configuration.",
            );
            reveal_strlit(
                "Component `Differential Fuzzing` is selected in workflow but no configuration found. Using default configuration.",
            );
        }
        let ghost fk = self.kani is None && selects(component_views(self.components@), "kani"@);
        let ghost fp = self.pbt is None && selects(component_views(self.components@), "pbt"@);
        let ghost fa = self.alive2 is None && selects(
            component_views(self.components@),
            "alive2"@,
        );
        let ghost fd = self.diff_fuzz is None && (selects(
            component_views(self.components@),
            "difffuzz"@,
        ) || selects(component_views(self.components@), "diff-fuzz"@) || selects(
            component_views(self.components@),
            "diff_fuzz"@,
        ));
        let WorkflowConfig { components, mut kani, mut alive2, mut diff_fuzz, mut pbt } = self;
        let mut warnings: Vec<String> = Vec::new();
        let saw_kani = selects_name(&components, "kani");
        let saw_pbt = selects_name(&components, "pbt");
        let saw_alive2 = selects_name(&components, "alive2");
        let saw_df = selects_name(&components, "difffuzz") || selects_name(&components, "diff-fuzz")
            || selects_name(&components, "diff_fuzz");
        if saw_kani && kani.is_none() {
            kani = Some(KaniConfig::default());
            warnings.push(
                "Component `Kani` is selected in workflow but no configuration found. Using default configuration.".to_owned(),
            );
        }
        if saw_pbt && pbt.is_none() {
            pbt = Some(PBTConfig::default());
            warnings.push(
                "Component `PBT` is selected in workflow but no configuration found. Using default configuration.".to_owned(),
            );
        }
        if saw_alive2 && alive2.is_none() {
            alive2 = Some(Alive2Config::default());
            warnings.push(
                "Component `Alive2` is selected in workflow but no configuration found. Using default configuration.".to_owned(),
            );
        }
        if saw_df && diff_fuzz.is_none() {
            diff_fuzz = Some(DiffFuzzConfig::default());
            warnings.push(
                "Component `Differential Fuzzing` is selected in workflow but no configuration found. Using default configuration.".to_owned(),
            );
        }
        proof {
            let expected = (if fk {
                seq![kani_missing_warning()]
            } else {
                Seq::<Seq<char>>::empty()
            }) + (if fp {
                seq![pbt_missing_warning()]
            } else {
                Seq::<Seq<char>>::empty()
            }) + (if fa {
                seq![alive2_missing_warning()]
            } else {
                Seq::<Seq<char>>::empty()
            }) + (if fd {
                seq![diff_fuzz_missing_warning()]
            } else {
                Seq::<Seq<char>>::empty()
            });
            assert(warning_views(warnings@) =~= expected);
        }
        (WorkflowConfig { components, kani, alive2, diff_fuzz, pbt }, warnings)
    }

    /// The workflow line for the log: the component names joined by arrows.
    pub fn log(&self) -> (r: String)
        ensures
            r@ == "Workflow: "@ + join_with(component_views(self.components@), " -> "@),
    {
        let mut r = String::new();
        r.append("Workflow: ");
        let joined = join_segments(&self.components, " -> ");
        r.append(joined.as_str());
        r
    }
}

} // verus!
