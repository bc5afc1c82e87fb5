//! The check components.
//!
//! The identical component decides directly inside the library; the four
//! tool-backed components keep their configuration here together with the
//! exact readers for their output lines.  Launching the tools themselves is
//! the driver's business.

use vstd::prelude::*;

verus! {

use crate::checker::CheckResult;
use crate::checker::Checker;
use crate::checker::path_views;
use crate::config::Alive2Config;
use crate::config::DiffFuzzConfig;
use crate::config::KaniConfig;
use crate::config::PBTConfig;
use crate::outparse::alive2_scan;
use crate::outparse::analyze_alive2_lines;
use crate::outparse::analyze_df_lines;
use crate::outparse::analyze_kani_lines;
use crate::outparse::analyze_pbt_lines;
use crate::outparse::df_scan;
use crate::outparse::kani_scan;
use crate::outparse::line_views;
use crate::outparse::pbt_scan;
use crate::path::Path;

/// Membership in a path list extended by one element.
pub proof fn lemma_path_views_push(ps: Seq<Path>, p: Path, n: Seq<Seq<char>>)
    ensures
        path_views(ps.push(p)).contains(n) == (path_views(ps).contains(n) || n == p@),
{
    let a = path_views(ps.push(p));
    let b = path_views(ps);
    if a.contains(n) {
        let j = choose|j: int| 0 <= j < a.len() && a[j] == n;
        if j < b.len() {
            assert(b[j] == n);
            assert(b.contains(n));
        } else {
            assert(ps.push(p)[j] == p);
        }
    }
    if b.contains(n) {
        let j = choose|j: int| 0 <= j < b.len() && b[j] == n;
        assert(a[j] == n);
        assert(a.contains(n));
    }
    if n == p@ {
        assert(a[a.len() - 1] == ps.push(p)[ps.len() as int]@);
        assert(a.contains(n));
    }
}

/// Some function in `fs` carries the name `n` and has equal bodies.
pub open spec fn identical_entry(n: Seq<Seq<char>>, fs: Seq<crate::defs::CommonFunction>) -> bool {
    exists|i: int|
        0 <= i < fs.len() && (#[trigger] fs[i]).metadata.name@ == n && fs[i].body1@ == fs[i].body2@
}

/// The identical component: a formal component without a subprocess.  Its
/// verdict is purely syntactic.
pub struct Identical;

impl Identical {
    /// This component is formal: its pass is conclusive.
    pub fn is_formal(&self) -> (r: bool)
        ensures
            r,
    {
        true
    }

    /// Declare ok exactly those functions under checking whose two bodies
    /// are equal as text.
    pub fn run(&self, checker: &Checker) -> (r: CheckResult)
        ensures
            r.status is Ok,
            r.fail@.len() == 0,
            forall|i: int|
                0 <= i < checker.under_checking_funcs@.len() && (#[trigger] checker.under_checking_funcs@[i]).body1@
                    == checker.under_checking_funcs@[i].body2@ ==> path_views(r.ok@).contains(
                    checker.under_checking_funcs@[i].metadata.name@,
                ),
            forall|k: int|
                0 <= k < r.ok@.len() ==> identical_entry(
                    (#[trigger] r.ok@[k])@,
                    checker.under_checking_funcs@,
                ),
    {
        let fs = &checker.under_checking_funcs;
        let mut ok: Vec<Path> = Vec::new();
        let mut i: usize = 0;
        while i < fs.len()
            invariant
                i <= fs@.len(),
                forall|j: int|
                    0 <= j < i && (#[trigger] fs@[j]).body1@ == fs@[j].body2@ ==> path_views(
                        ok@,
                    ).contains(fs@[j].metadata.name@),
                forall|k: int| 0 <= k < ok@.len() ==> identical_entry((#[trigger] ok@[k])@, fs@),
            decreases fs@.len() - i,
        {
            let ghost prev = ok@;
            if fs[i].body1 == fs[i].body2 {
                let name = fs[i].metadata.name.duplicate();
                ok.push(name);
                proof {
                    assert(ok@ == prev.push(ok@[ok@.len() - 1]));
                    assert(ok@[ok@.len() - 1]@ == fs@[i as int].metadata.name@);
                    assert forall|j: int|
                        0 <= j < i + 1 && (#[trigger] fs@[j]).body1@ == fs@[j].body2@ implies
                        path_views(ok@).contains(fs@[j].metadata.name@) by {
                        lemma_path_views_push(prev, ok@[ok@.len() - 1], fs@[j].metadata.name@);
                    }
                    assert(identical_entry(ok@[ok@.len() - 1]@, fs@));
                    assert forall|k: int| 0 <= k < ok@.len() implies identical_entry(
                        (#[trigger] ok@[k])@,
                        fs@,
                    ) by {
                        if k < prev.len() {
                            assert(ok@[k] == prev[k]);
                        }
                    }
                }
            } else {
                proof {
                    assert(fs@[i as int].body1@ != fs@[i as int].body2@);
                }
            }
            i += 1;
        }
        CheckResult { status: Ok(()), ok, fail: Vec::new() }
    }
}

/// The symbolic-prover component.
pub struct Kani {
    /// Its configuration.
    pub config: KaniConfig,
}

impl Kani {
    /// Create a new symbolic-prover component with the given configuration.
    pub fn new(config: KaniConfig) -> (r: Kani)
        ensures
            r.config == config,
    {
        Kani { config }
    }

    /// This component is formal: its pass is conclusive.
    pub fn is_formal(&self) -> (r: bool)
        ensures
            r,
    {
        true
    }

    /// Read the prover's captured output lines into verdicts.
    pub fn analyze_output(&self, lines: &Vec<String>) -> (r: CheckResult)
        ensures
            r.status is Ok,
            path_views(r.ok@) == kani_scan(line_views(lines@)).0,
            path_views(r.fail@) == kani_scan(line_views(lines@)).1,
    {
        analyze_kani_lines(lines)
    }
}

/// The property-testing component.
pub struct PropertyBasedTesting {
    /// Its configuration.
    pub config: PBTConfig,
}

impl PropertyBasedTesting {
    /// Create a new property-testing component with the given configuration.
    pub fn new(config: PBTConfig) -> (r: PropertyBasedTesting)
        ensures
            r.config == config,
    {
        PropertyBasedTesting { config }
    }

    /// This component is a testing component: its fail is conclusive.
    pub fn is_formal(&self) -> (r: bool)
        ensures
            !r,
    {
        false
    }

    /// Read the test runner's captured output lines into verdicts.
    pub fn analyze_output(&self, lines: &Vec<String>) -> (r: CheckResult)
        ensures
            r.status is Ok,
            path_views(r.ok@) == pbt_scan(line_views(lines@)).0,
            path_views(r.fail@) == pbt_scan(line_views(lines@)).1,
    {
        analyze_pbt_lines(lines)
    }
}

/// The differential-fuzzing component.
pub struct DifferentialFuzzing {
    /// Its configuration.
    pub config: DiffFuzzConfig,
}

impl DifferentialFuzzing {
    /// Create a new differential-fuzzing component with the given
    /// configuration.
    pub fn new(config: DiffFuzzConfig) -> (r: DifferentialFuzzing)
        ensures
            r.config == config,
    {
        DifferentialFuzzing { config }
    }

    /// This component is a testing component: its fail is conclusive.
    pub fn is_formal(&self) -> (r: bool)
        ensures
            !r,
    {
        false
    }

    /// Read the fuzzer's mismatch log: the checked functions start ok and
    /// every mismatch line moves its function to the fail list.
    pub fn analyze_output(&self, functions: &Vec<Path>, lines: &Vec<String>) -> (r: CheckResult)
        ensures
            r.status is Ok,
            path_views(r.ok@) == df_scan(path_views(functions@), line_views(lines@)).0,
            path_views(r.fail@) == df_scan(path_views(functions@), line_views(lines@)).1,
    {
        analyze_df_lines(functions, lines)
    }
}

/// The IR-checker component.
pub struct Alive2 {
    /// Its configuration.
    pub config: Alive2Config,
}

impl Alive2 {
    /// Create a new IR-checker component with the given configuration.
    pub fn new(config: Alive2Config) -> (r: Alive2)
        ensures
            r.config == config,
    {
        Alive2 { config }
    }

    /// This component is formal: its pass is conclusive.
    pub fn is_formal(&self) -> (r: bool)
        ensures
            r,
    {
        true
    }

    /// Read the IR checker's captured output lines into verdicts.  An
    /// `ERROR` only abandons the function, so nothing is ever failed.
    pub fn analyze_output(&self, lines: &Vec<String>) -> (r: CheckResult)
        ensures
            r.status is Ok,
            path_views(r.ok@) == alive2_scan(line_views(lines@)).0,
            r.fail@.len() == 0,
    {
        analyze_alive2_lines(lines)
    }
}

} // verus!
