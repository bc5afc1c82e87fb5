//! The checker state machine.
//!
//! Common functions are matched across the two sources, rewritten through
//! instantiated type aliases, and partitioned into worklists.  Each
//! component's verdicts are merged under the dual polarity: a formal pass is
//! conclusive and moves a function to `verified`; a testing fail is a
//! counterexample and moves it to `failed`; the opposite verdicts only log
//! or record.  The terminal lists `under_checking`, `verified` and `failed`
//! stay pairwise disjoint; `tested` may share with them by design, since a
//! tested function stays under checking and may later be verified or failed.

use vstd::prelude::*;

verus! {

use crate::defs::CommonFunction;
use crate::defs::Function;
use crate::defs::Precondition;
use crate::defs::opt_type_view;
use crate::path::Path;
use crate::types::InstantiatedType;
use crate::types::PreciseType;
use crate::types::Type;
use crate::types::TypeV;
use crate::types::eq_ignore_generics_spec;
use vstd::string::StringExecFns;

/// A source file with its collected functions and symbols.
pub struct Source {
    /// File path.
    pub path: String,
    /// Full text content.
    pub content: String,
    /// Functions of this source that were not matched with the other one.
    pub unique_funcs: Vec<Function>,
    /// Symbols a harness must import.
    pub symbols: Vec<Path>,
    /// Instantiated generic types.
    pub inst_types: Vec<InstantiatedType>,
}

impl Source {
    /// Assemble a source from its collected parts.
    pub fn new(
        path: String,
        content: String,
        unique_funcs: Vec<Function>,
        symbols: Vec<Path>,
        inst_types: Vec<InstantiatedType>,
    ) -> (r: Source)
        ensures
            r.path@ == path@,
            r.content@ == content@,
            r.unique_funcs == unique_funcs,
            r.symbols == symbols,
            r.inst_types == inst_types,
    {
        Source { path, content, unique_funcs, symbols, inst_types }
    }

    /// Append additional text to the source.
    pub fn append_content(&mut self, additional: &str)
        ensures
            final(self).content@ == old(self).content@ + additional@,
            final(self).path@ == old(self).path@,
            final(self).unique_funcs == old(self).unique_funcs,
            final(self).symbols == old(self).symbols,
            final(self).inst_types == old(self).inst_types,
    {
        self.content.append(additional);
    }
}

/// A typed check result: the component's overall status and its per-function
/// verdicts.
pub struct CheckResult {
    /// Overall status; an error here means the component could not run.
    pub status: Result<(), String>,
    /// Functions that passed the consistency check.
    pub ok: Vec<Path>,
    /// Functions that failed the consistency check.
    pub fail: Vec<Path>,
}

impl CheckResult {
    /// A failed check result carrying the given error text.
    pub fn failed(e: String) -> (r: CheckResult)
        ensures
            r.status is Err,
            r.status->Err_0@ == e@,
            r.ok@.len() == 0,
            r.fail@.len() == 0,
    {
        CheckResult { status: Err(e), ok: Vec::new(), fail: Vec::new() }
    }
}

/// Whether a list of common functions holds one with the given name.
pub open spec fn has_name(fs: Seq<CommonFunction>, n: Seq<Seq<char>>) -> bool {
    exists|i: int| 0 <= i < fs.len() && fs[i].metadata.name@ == n
}

/// Whether a list of functions holds one with the given name.
pub open spec fn has_fn_name(fs: Seq<Function>, n: Seq<Seq<char>>) -> bool {
    exists|i: int| 0 <= i < fs.len() && fs[i].metadata.name@ == n
}

/// No two entries of the list carry the same name.
pub open spec fn names_unique(fs: Seq<CommonFunction>) -> bool {
    forall|k1: int, k2: int|
        0 <= k1 < k2 < fs.len() ==> (#[trigger] fs[k1]).metadata.name@ != (
        #[trigger] fs[k2]).metadata.name@
}

/// The views of a list of paths.
pub open spec fn path_views(ps: Seq<Path>) -> Seq<Seq<Seq<char>>> {
    ps.map_values(|p: Path| p@)
}

/// No name occurs in both lists.
pub open spec fn disjoint_names(a: Seq<CommonFunction>, b: Seq<CommonFunction>) -> bool {
    forall|n: Seq<Seq<char>>| !(has_name(a, n) && has_name(b, n))
}

/// Membership in a list extended by one element.
pub proof fn lemma_has_name_push(prev: Seq<CommonFunction>, f: CommonFunction, n: Seq<Seq<char>>)
    ensures
        has_name(prev.push(f), n) == (has_name(prev, n) || f.metadata.name@ == n),
{
    let r = prev.push(f);
    if has_name(r, n) {
        let k = choose|k: int| 0 <= k < r.len() && (#[trigger] r[k]).metadata.name@ == n;
        if k < prev.len() {
            assert(prev[k].metadata.name@ == n);
        } else {
            assert(r[k] == f);
        }
    }
    if has_name(prev, n) {
        let k = choose|k: int| 0 <= k < prev.len() && (#[trigger] prev[k]).metadata.name@ == n;
        assert(r[k].metadata.name@ == n);
    }
    if f.metadata.name@ == n {
        assert(r[r.len() - 1].metadata.name@ == n);
    }
}

/// Membership in a prefix extended by one position.
pub proof fn lemma_has_name_take_step(fs: Seq<CommonFunction>, i: int, n: Seq<Seq<char>>)
    requires
        0 <= i < fs.len(),
    ensures
        has_name(fs.take(i + 1), n) == (has_name(fs.take(i), n) || fs[i].metadata.name@ == n),
{
    assert(fs.take(i + 1).drop_last() =~= fs.take(i));
    assert(fs.take(i + 1) =~= fs.take(i).push(fs[i]));
    lemma_has_name_push(fs.take(i), fs[i], n);
}

/// Whether the list holds a common function built from this source
/// function: same metadata, first body taken from it.
pub open spec fn has_common_for(r: Seq<CommonFunction>, f: Function) -> bool {
    exists|k: int|
        0 <= k < r.len() && (#[trigger] r[k]).metadata@ == f.metadata@ && r[k].body1@ == f.body@
}

/// A common function for `f` stays present when the list is extended.
pub proof fn lemma_has_common_push(prev: Seq<CommonFunction>, c: CommonFunction, f: Function)
    ensures
        has_common_for(prev.push(c), f) == (has_common_for(prev, f) || (c.metadata@ == f.metadata@
            && c.body1@ == f.body@)),
{
    let r = prev.push(c);
    if has_common_for(r, f) {
        let k = choose|k: int|
            0 <= k < r.len() && (#[trigger] r[k]).metadata@ == f.metadata@ && r[k].body1@
                == f.body@;
        if k < prev.len() {
            assert(prev[k].metadata@ == f.metadata@ && prev[k].body1@ == f.body@);
        } else {
            assert(r[k] == c);
        }
    }
    if has_common_for(prev, f) {
        let k = choose|k: int|
            0 <= k < prev.len() && (#[trigger] prev[k]).metadata@ == f.metadata@ && prev[k].body1@
                == f.body@;
        assert(r[k].metadata@ == f.metadata@ && r[k].body1@ == f.body@);
    }
    if c.metadata@ == f.metadata@ && c.body1@ == f.body@ {
        assert(r[r.len() - 1].metadata@ == f.metadata@ && r[r.len() - 1].body1@ == f.body@);
    }
}

/// Membership by name distributes over concatenation.
pub proof fn lemma_has_name_append(a: Seq<CommonFunction>, b: Seq<CommonFunction>, n: Seq<Seq<char>>)
    ensures
        has_name(a + b, n) == (has_name(a, n) || has_name(b, n)),
{
    let r = a + b;
    if has_name(r, n) {
        let k = choose|k: int| 0 <= k < r.len() && (#[trigger] r[k]).metadata.name@ == n;
        if k < a.len() {
            assert(a[k].metadata.name@ == n);
        } else {
            assert(b[k - a.len()].metadata.name@ == n);
        }
    }
    if has_name(a, n) {
        let k = choose|k: int| 0 <= k < a.len() && (#[trigger] a[k]).metadata.name@ == n;
        assert(r[k].metadata.name@ == n);
    }
    if has_name(b, n) {
        let k = choose|k: int| 0 <= k < b.len() && (#[trigger] b[k]).metadata.name@ == n;
        assert(r[a.len() + k].metadata.name@ == n);
    }
}

/// Find a common function by name.
pub fn find_by_name(fs: &Vec<CommonFunction>, name: &Path) -> (r: Option<usize>)
    ensures
        match r {
            Some(i) => i < fs@.len() && fs@[i as int].metadata.name@ == name@,
            None => !has_name(fs@, name@),
        },
{
    let mut i: usize = 0;
    while i < fs.len()
        invariant
            i <= fs.len(),
            forall|j: int| 0 <= j < i ==> fs@[j].metadata.name@ != name@,
        decreases fs.len() - i,
    {
        if fs[i].metadata.name.same_as(name) {
            return Some(i);
        }
        i += 1;
    }
    None
}

/// Remove every common function carrying the given name.
pub fn remove_by_name(fs: &Vec<CommonFunction>, name: &Path) -> (r: Vec<CommonFunction>)
    ensures
        forall|n: Seq<Seq<char>>|
            has_name(r@, n) == (has_name(fs@, n) && n != name@),
        forall|j: int|
            0 <= j < r@.len() ==> exists|i: int|
                0 <= i < fs@.len() && (#[trigger] r@[j])@ == fs@[i]@,
{
    let mut r: Vec<CommonFunction> = Vec::new();
    let mut i: usize = 0;
    while i < fs.len()
        invariant
            i <= fs.len(),
            forall|n: Seq<Seq<char>>|
                has_name(r@, n) == (has_name(fs@.take(i as int), n) && n != name@),
            forall|j: int|
                0 <= j < r@.len() ==> exists|i2: int|
                    0 <= i2 < fs@.len() && (#[trigger] r@[j])@ == fs@[i2]@,
        decreases fs.len() - i,
    {
        let ghost prev = r@;
        if !fs[i].metadata.name.same_as(name) {
            let copy = fs[i].duplicate();
            r.push(copy);
            proof {
                assert(r@ == prev.push(copy));
                assert(copy.metadata.name@ == fs@[i as int].metadata.name@);
                assert(r@[r@.len() - 1]@ == fs@[i as int]@);
                assert forall|j: int| 0 <= j < r@.len() implies exists|i2: int|
                    0 <= i2 < fs@.len() && (#[trigger] r@[j])@ == fs@[i2]@ by {
                    if j < prev.len() {
                        assert(r@[j] == prev[j]);
                        let w = choose|i2: int| 0 <= i2 < fs@.len() && prev[j]@ == fs@[i2]@;
                        assert(r@[j]@ == fs@[w]@);
                    } else {
                        assert(r@[j]@ == fs@[i as int]@);
                    }
                }
                assert forall|n: Seq<Seq<char>>|
                    has_name(r@, n) == (has_name(fs@.take(i as int + 1), n) && n != name@) by {
                    lemma_has_name_push(prev, copy, n);
                    lemma_has_name_take_step(fs@, i as int, n);
                }
            }
        } else {
            proof {
                assert forall|n: Seq<Seq<char>>|
                    has_name(r@, n) == (has_name(fs@.take(i as int + 1), n) && n != name@) by {
                    lemma_has_name_take_step(fs@, i as int, n);
                }
            }
        }
        i += 1;
    }
    proof {
        assert(fs@.take(fs@.len() as int) =~= fs@);
        assert forall|j: int| 0 <= j < r@.len() implies exists|i: int|
            0 <= i < fs@.len() && (#[trigger] r@[j])@ == fs@[i]@ by {
            let w = choose|i2: int| 0 <= i2 < fs@.len() && r@[j]@ == fs@[i2]@;
            assert(0 <= w < fs@.len() && r@[j]@ == fs@[w]@);
        }
    }
    r
}

/// Membership in a function list extended by one element.
pub proof fn lemma_has_fn_name_push(prev: Seq<Function>, f: Function, n: Seq<Seq<char>>)
    ensures
        has_fn_name(prev.push(f), n) == (has_fn_name(prev, n) || f.metadata.name@ == n),
{
    let r = prev.push(f);
    if has_fn_name(r, n) {
        let k = choose|k: int| 0 <= k < r.len() && (#[trigger] r[k]).metadata.name@ == n;
        if k < prev.len() {
            assert(prev[k].metadata.name@ == n);
        } else {
            assert(r[k] == f);
        }
    }
    if has_fn_name(prev, n) {
        let k = choose|k: int| 0 <= k < prev.len() && (#[trigger] prev[k]).metadata.name@ == n;
        assert(r[k].metadata.name@ == n);
    }
    if f.metadata.name@ == n {
        assert(r[r.len() - 1].metadata.name@ == n);
    }
}

/// Membership in a function-list prefix extended by one position.
pub proof fn lemma_has_fn_name_take_step(fs: Seq<Function>, i: int, n: Seq<Seq<char>>)
    requires
        0 <= i < fs.len(),
    ensures
        has_fn_name(fs.take(i + 1), n) == (has_fn_name(fs.take(i), n) || fs[i].metadata.name@
            == n),
{
    assert(fs.take(i + 1) =~= fs.take(i).push(fs[i]));
    lemma_has_fn_name_push(fs.take(i), fs[i], n);
}

/// A common function agrees with a pair of source functions: both sources
/// hold functions with the same fully qualified name whose signatures are
/// equal, and the two bodies are taken from that pair.
pub open spec fn matched_pair_exists(
    c: CommonFunction,
    l1: Seq<Function>,
    l2: Seq<Function>,
) -> bool {
    exists|i: int, j: int|
        0 <= i < l1.len() && 0 <= j < l2.len() && c.metadata@ == l1[i].metadata@ && l2[j].metadata.name@ == l1[i].metadata.name@ && crate::defs::sig_eq(
            l1[i].metadata.signature@,
            l2[j].metadata.signature@,
        ) && c.body1@ == l1[i].body@ && c.body2@ == l2[j].body@
}

/// Whether the other source holds a counterpart of `f1`: a function with
/// the same fully qualified name and an equal signature.
pub open spec fn some_match(f1: Function, l2: Seq<Function>) -> bool {
    exists|j: int|
        0 <= j < l2.len() && (#[trigger] l2[j]).metadata.name@ == f1.metadata.name@
            && crate::defs::sig_eq(f1.metadata.signature@, l2[j].metadata.signature@)
}

/// Find the first counterpart of `f1` in the other source.
pub fn find_counterpart(l2: &Vec<Function>, f1: &Function) -> (r: Option<usize>)
    ensures
        match r {
            Some(j) => j < l2@.len() && l2@[j as int].metadata.name@ == f1.metadata.name@
                && crate::defs::sig_eq(
                f1.metadata.signature@,
                l2@[j as int].metadata.signature@,
            ),
            None => !some_match(*f1, l2@),
        },
{
    let mut j: usize = 0;
    while j < l2.len()
        invariant
            j <= l2@.len(),
            forall|j2: int|
                0 <= j2 < j ==> !((#[trigger] l2@[j2]).metadata.name@ == f1.metadata.name@
                    && crate::defs::sig_eq(
                    f1.metadata.signature@,
                    l2@[j2].metadata.signature@,
                )),
        decreases l2@.len() - j,
    {
        let f2 = &l2[j];
        if f1.metadata.signature == f2.metadata.signature && f1.metadata.name.same_as(
            &f2.metadata.name,
        ) {
            return Some(j);
        }
        j += 1;
    }
    proof {
        if some_match(*f1, l2@) {
            let w = choose|j2: int|
                0 <= j2 < l2@.len() && (#[trigger] l2@[j2]).metadata.name@ == f1.metadata.name@
                    && crate::defs::sig_eq(
                    f1.metadata.signature@,
                    l2@[j2].metadata.signature@,
                );
            assert(!(l2@[w].metadata.name@ == f1.metadata.name@ && crate::defs::sig_eq(
                f1.metadata.signature@,
                l2@[w].metadata.signature@,
            )));
        }
    }
    None
}

/// Match the functions of the two sources: a function is common exactly when
/// both sources hold functions with equal signatures and the same fully
/// qualified name.  Every produced common function agrees with a pair of
/// source functions in signature and name, and every function of the first
/// source that has a counterpart is matched.
pub fn match_common(l1: &Vec<Function>, l2: &Vec<Function>) -> (r: Vec<CommonFunction>)
    ensures
        forall|k: int| 0 <= k < r@.len() ==> matched_pair_exists(#[trigger] r@[k], l1@, l2@),
        forall|i: int|
            0 <= i < l1@.len() && some_match(#[trigger] l1@[i], l2@) ==> has_name(
                r@,
                l1@[i].metadata.name@,
            ),
        forall|i: int|
            0 <= i < l1@.len() && some_match(#[trigger] l1@[i], l2@) ==> has_common_for(
                r@,
                l1@[i],
            ),
{
    let mut r: Vec<CommonFunction> = Vec::new();
    let mut i: usize = 0;
    while i < l1.len()
        invariant
            i <= l1@.len(),
            forall|k: int| 0 <= k < r@.len() ==> matched_pair_exists(#[trigger] r@[k], l1@, l2@),
            forall|i2: int|
                0 <= i2 < i && some_match(#[trigger] l1@[i2], l2@) ==> has_name(
                    r@,
                    l1@[i2].metadata.name@,
                ),
            forall|i2: int|
                0 <= i2 < i && some_match(#[trigger] l1@[i2], l2@) ==> has_common_for(
                    r@,
                    l1@[i2],
                ),
        decreases l1@.len() - i,
    {
        let ghost prev = r@;
        let f1 = &l1[i];
        match find_counterpart(l2, f1) {
            Some(j) => {
                let c = CommonFunction::new(
                    f1.metadata.duplicate(),
                    f1.body.clone(),
                    l2[j].body.clone(),
                );
                r.push(c);
                proof {
                    let last = r@[r@.len() - 1];
                    assert(last.metadata@ == l1@[i as int].metadata@);
                    assert(last.body1@ == l1@[i as int].body@);
                    assert(last.body2@ == l2@[j as int].body@);
                    assert(matched_pair_exists(last, l1@, l2@));
                    assert(last.metadata.name@ == l1@[i as int].metadata.name@);
                    assert forall|i2: int|
                        0 <= i2 < i + 1 && some_match(#[trigger] l1@[i2], l2@) implies has_name(
                        r@,
                        l1@[i2].metadata.name@,
                    ) by {
                        lemma_has_name_push(prev, last, l1@[i2].metadata.name@);
                    }
                    assert forall|i2: int|
                        0 <= i2 < i + 1 && some_match(
                            #[trigger] l1@[i2],
                            l2@,
                        ) implies has_common_for(r@, l1@[i2]) by {
                        lemma_has_common_push(prev, last, l1@[i2]);
                    }
                }
            },
            None => {
                proof {
                    assert(!some_match(l1@[i as int], l2@));
                }
            },
        }
        i += 1;
    }
    r
}

/// Keep only the functions whose name was not matched into the common list.
pub fn remove_matched(unique: &Vec<Function>, commons: &Vec<CommonFunction>) -> (r: Vec<Function>)
    ensures
        forall|n: Seq<Seq<char>>|
            has_fn_name(r@, n) == (has_fn_name(unique@, n) && !has_name(commons@, n)),
{
    let mut r: Vec<Function> = Vec::new();
    let mut i: usize = 0;
    while i < unique.len()
        invariant
            i <= unique@.len(),
            forall|n: Seq<Seq<char>>|
                has_fn_name(r@, n) == (has_fn_name(unique@.take(i as int), n) && !has_name(
                    commons@,
                    n,
                )),
        decreases unique@.len() - i,
    {
        let ghost prev = r@;
        let keep = match find_by_name(commons, &unique[i].metadata.name) {
            Some(_) => false,
            None => true,
        };
        if keep {
            let copy = unique[i].duplicate();
            r.push(copy);
            proof {
                assert forall|n: Seq<Seq<char>>|
                    has_fn_name(r@, n) == (has_fn_name(unique@.take(i as int + 1), n) && !has_name(
                        commons@,
                        n,
                    )) by {
                    lemma_has_fn_name_push(prev, r@[r@.len() - 1], n);
                    lemma_has_fn_name_take_step(unique@, i as int, n);
                }
            }
        } else {
            proof {
                assert(has_name(commons@, unique@[i as int].metadata.name@));
                assert forall|n: Seq<Seq<char>>|
                    has_fn_name(r@, n) == (has_fn_name(unique@.take(i as int + 1), n) && !has_name(
                        commons@,
                        n,
                    )) by {
                    lemma_has_fn_name_take_step(unique@, i as int, n);
                }
            }
        }
        i += 1;
    }
    proof {
        assert(unique@.take(unique@.len() as int) =~= unique@);
    }
    r
}

/// View-level equality of instantiated types.
pub open spec fn inst_eq(a: InstantiatedType, b: InstantiatedType) -> bool {
    a.alias@ == b.alias@ && a.concrete@ == b.concrete@
}

/// An instantiated type present in both lists.
pub open spec fn inst_in_both(
    t: InstantiatedType,
    l1: Seq<InstantiatedType>,
    l2: Seq<InstantiatedType>,
) -> bool {
    (exists|i: int| 0 <= i < l1.len() && inst_eq(t, #[trigger] l1[i])) && (exists|j: int|
        0 <= j < l2.len() && inst_eq(t, #[trigger] l2[j]))
}

/// Whether the list holds an instantiation with this value.
pub open spec fn has_inst(rs: Seq<InstantiatedType>, t: InstantiatedType) -> bool {
    exists|k: int| 0 <= k < rs.len() && inst_eq(#[trigger] rs[k], t)
}

/// Membership of an instantiation value in a list extended by one element.
pub proof fn lemma_has_inst_push(
    prev: Seq<InstantiatedType>,
    x: InstantiatedType,
    t: InstantiatedType,
)
    ensures
        has_inst(prev.push(x), t) == (has_inst(prev, t) || inst_eq(x, t)),
{
    let r = prev.push(x);
    if has_inst(r, t) {
        let k = choose|k: int| 0 <= k < r.len() && inst_eq(#[trigger] r[k], t);
        if k < prev.len() {
            assert(inst_eq(prev[k], t));
        } else {
            assert(r[k] == x);
        }
    }
    if has_inst(prev, t) {
        let k = choose|k: int| 0 <= k < prev.len() && inst_eq(#[trigger] prev[k], t);
        assert(inst_eq(r[k], t));
    }
    if inst_eq(x, t) {
        assert(inst_eq(r[r.len() - 1], t));
    }
}

/// Whether the list holds an instantiation equal to `a`.
pub fn find_equal_inst(l2: &Vec<InstantiatedType>, a: &InstantiatedType) -> (r: bool)
    ensures
        r == exists|j: int| 0 <= j < l2@.len() && inst_eq(*a, #[trigger] l2@[j]),
{
    let mut j: usize = 0;
    while j < l2.len()
        invariant
            j <= l2@.len(),
            forall|j2: int| 0 <= j2 < j ==> !inst_eq(*a, #[trigger] l2@[j2]),
        decreases l2@.len() - j,
    {
        let b = &l2[j];
        if a.alias.same_as(&b.alias) && a.concrete.same_as(&b.concrete) {
            proof {
                assert(inst_eq(*a, l2@[j as int]));
            }
            return true;
        }
        j += 1;
    }
    proof {
        if exists|j2: int| 0 <= j2 < l2@.len() && inst_eq(*a, #[trigger] l2@[j2]) {
            let w = choose|j2: int| 0 <= j2 < l2@.len() && inst_eq(*a, #[trigger] l2@[j2]);
            assert(!inst_eq(*a, l2@[w]));
        }
    }
    false
}

/// The instantiated types shared by both sources: everything kept is in
/// both lists, and every instantiation of the first list that has an equal
/// in the second is kept.
pub fn intersect_inst_types(
    l1: &Vec<InstantiatedType>,
    l2: &Vec<InstantiatedType>,
) -> (r: Vec<InstantiatedType>)
    ensures
        forall|k: int| 0 <= k < r@.len() ==> inst_in_both(#[trigger] r@[k], l1@, l2@),
        forall|i: int|
            0 <= i < l1@.len() && (exists|j: int|
                0 <= j < l2@.len() && inst_eq(#[trigger] l1@[i], #[trigger] l2@[j])) ==> has_inst(
                r@,
                l1@[i],
            ),
{
    let mut r: Vec<InstantiatedType> = Vec::new();
    let mut i: usize = 0;
    while i < l1.len()
        invariant
            i <= l1@.len(),
            forall|k: int| 0 <= k < r@.len() ==> inst_in_both(#[trigger] r@[k], l1@, l2@),
            forall|i2: int|
                0 <= i2 < i && (exists|j: int|
                    0 <= j < l2@.len() && inst_eq(#[trigger] l1@[i2], #[trigger] l2@[j]))
                    ==> has_inst(r@, l1@[i2]),
        decreases l1@.len() - i,
    {
        let ghost prev = r@;
        let a = &l1[i];
        if find_equal_inst(l2, a) {
            let copy = InstantiatedType {
                alias: a.alias.duplicate(),
                concrete: a.concrete.duplicate(),
            };
            r.push(copy);
            proof {
                let last = r@[r@.len() - 1];
                assert(inst_eq(last, l1@[i as int]));
                let w = choose|j: int| 0 <= j < l2@.len() && inst_eq(l1@[i as int], #[trigger] l2@[j]);
                assert(inst_eq(last, l2@[w]));
                assert(inst_in_both(last, l1@, l2@));
                assert forall|i2: int|
                    0 <= i2 < i + 1 && (exists|j: int|
                        0 <= j < l2@.len() && inst_eq(#[trigger] l1@[i2], #[trigger] l2@[j]))
                    implies has_inst(r@, l1@[i2]) by {
                    lemma_has_inst_push(prev, last, l1@[i2]);
                }
            }
        }
        i += 1;
    }
    r
}

/// The alias paths of the instantiations whose concrete type matches `it`
/// when generic arguments are ignored, in list order.
pub open spec fn matching_aliases(insts: Seq<InstantiatedType>, it: TypeV) -> Seq<Seq<Seq<char>>>
    decreases insts.len(),
{
    if insts.len() == 0 {
        Seq::empty()
    } else {
        let rest = matching_aliases(insts.drop_last(), it);
        if eq_ignore_generics_spec(insts.last().concrete@, it) {
            rest.push(insts.last().alias@)
        } else {
            rest
        }
    }
}

/// An instantiation whose concrete type matches contributes its alias.
pub proof fn lemma_matching_aliases_contains(insts: Seq<InstantiatedType>, it: TypeV, p: int)
    requires
        0 <= p < insts.len(),
        eq_ignore_generics_spec(insts[p].concrete@, it),
    ensures
        matching_aliases(insts, it).contains(insts[p].alias@),
    decreases insts.len(),
{
    if p == insts.len() - 1 {
        let rest = matching_aliases(insts.drop_last(), it);
        assert(matching_aliases(insts, it) == rest.push(insts.last().alias@));
        assert(matching_aliases(insts, it)[rest.len() as int] == insts[p].alias@);
    } else {
        assert(insts.drop_last()[p] == insts[p]);
        lemma_matching_aliases_contains(insts.drop_last(), it, p);
        let rest = matching_aliases(insts.drop_last(), it);
        let w = choose|w: int| 0 <= w < rest.len() && rest[w] == insts[p].alias@;
        if eq_ignore_generics_spec(insts.last().concrete@, it) {
            assert(matching_aliases(insts, it)[w] == insts[p].alias@);
        } else {
            assert(matching_aliases(insts, it)[w] == insts[p].alias@);
        }
    }
}

/// Every alias in the matching list comes from a matching instantiation.
pub proof fn lemma_matching_aliases_source(insts: Seq<InstantiatedType>, it: TypeV, x: int)
    requires
        0 <= x < matching_aliases(insts, it).len(),
    ensures
        exists|p: int|
            0 <= p < insts.len() && eq_ignore_generics_spec((#[trigger] insts[p]).concrete@, it)
                && insts[p].alias@ == matching_aliases(insts, it)[x],
    decreases insts.len(),
{
    let ms = matching_aliases(insts, it);
    let rest = matching_aliases(insts.drop_last(), it);
    if eq_ignore_generics_spec(insts.last().concrete@, it) && x == ms.len() - 1 {
        assert(ms[x] == insts[insts.len() - 1].alias@);
        assert(eq_ignore_generics_spec((insts[insts.len() - 1]).concrete@, it));
    } else {
        lemma_matching_aliases_source(insts.drop_last(), it, x);
        let p = choose|p: int|
            0 <= p < insts.drop_last().len() && eq_ignore_generics_spec(
                (#[trigger] insts.drop_last()[p]).concrete@,
                it,
            ) && insts.drop_last()[p].alias@ == rest[x];
        assert(insts.drop_last()[p] == insts[p]);
        assert(ms[x] == rest[x]);
        assert(eq_ignore_generics_spec((insts[p]).concrete@, it) && insts[p].alias@ == ms[x]);
    }
}

/// Rewrite one common function through the instantiated aliases: for every
/// instantiation whose concrete type matches the function's impl type, a
/// copy renamed to the alias is produced; a function without a matching
/// instantiation is kept as it is.
pub fn rewrite_common(c: &CommonFunction, insts: &Vec<InstantiatedType>) -> (r: Vec<
    CommonFunction,
>)
    ensures
        c.metadata.impl_type is None ==> r@.len() == 1 && r@[0]@ == c@,
        c.metadata.impl_type is Some ==> {
            let ms = matching_aliases(insts@, c.metadata.impl_type->0@);
            if ms.len() == 0 {
                r@.len() == 1 && r@[0]@ == c@
            } else {
                r@.len() == ms.len() && forall|k: int|
                    0 <= k < ms.len() ==> {
                        &&& (#[trigger] r@[k]).metadata.name@ == ms[k].push(
                            c.metadata.signature@.ident,
                        )
                        &&& opt_type_view(&r@[k].metadata.impl_type) == Some(
                            TypeV::Precise(ms[k]),
                        )
                        &&& r@[k].metadata.signature@ == c.metadata.signature@
                        &&& r@[k].body1@ == c.body1@
                        &&& r@[k].body2@ == c.body2@
                    }
            }
        },
{
    match &c.metadata.impl_type {
        None => {
            let mut r: Vec<CommonFunction> = Vec::new();
            r.push(c.duplicate());
            proof {
                assert(r@[0]@ == c@);
            }
            r
        },
        Some(it) => {
            let ghost itv = it@;
            let mut r: Vec<CommonFunction> = Vec::new();
            let mut i: usize = 0;
            while i < insts.len()
                invariant
                    i <= insts@.len(),
                    itv == c.metadata.impl_type->0@,
                    it@ == itv,
                    c.metadata.impl_type is Some,
                    r@.len() == matching_aliases(insts@.take(i as int), itv).len(),
                    forall|k: int|
                        0 <= k < r@.len() ==> {
                            let ms = matching_aliases(insts@.take(i as int), itv);
                            &&& (#[trigger] r@[k]).metadata.name@ == ms[k].push(
                                c.metadata.signature@.ident,
                            )
                            &&& opt_type_view(&r@[k].metadata.impl_type) == Some(
                                TypeV::Precise(ms[k]),
                            )
                            &&& r@[k].metadata.signature@ == c.metadata.signature@
                            &&& r@[k].body1@ == c.body1@
                            &&& r@[k].body2@ == c.body2@
                        },
                decreases insts@.len() - i,
            {
                let ghost pre = matching_aliases(insts@.take(i as int), itv);
                proof {
                    assert(insts@.take(i as int + 1).drop_last() =~= insts@.take(i as int));
                    assert(insts@.take(i as int + 1).last() == insts@[i as int]);
                }
                if insts[i].concrete.eq_ignore_generics(it) {
                    let alias = insts[i].alias.duplicate();
                    let new_name = insts[i].alias.duplicate().join(c.metadata.ident());
                    let meta = crate::defs::FunctionMetadata::new(
                        new_name,
                        c.metadata.signature.duplicate(),
                        Some(Type::Precise(PreciseType(alias))),
                    );
                    let nc = CommonFunction::new(meta, c.body1.clone(), c.body2.clone());
                    r.push(nc);
                    proof {
                        let ms = matching_aliases(insts@.take(i as int + 1), itv);
                        assert(ms == pre.push(insts@[i as int].alias@));
                        assert(r@[r@.len() - 1].metadata.name@ == insts@[i as int].alias@.push(
                            c.metadata.signature@.ident,
                        ));
                    }
                } else {
                    proof {
                        assert(matching_aliases(insts@.take(i as int + 1), itv) == pre);
                    }
                }
                i += 1;
            }
            proof {
                assert(insts@.take(insts@.len() as int) =~= insts@);
            }
            if r.len() == 0 {
                r.push(c.duplicate());
                proof {
                    assert(r@[0]@ == c@);
                }
            }
            r
        },
    }
}

/// Rewrite one precondition through the instantiated aliases, in the same
/// way as [`rewrite_common`].
pub fn rewrite_precond(p: &Precondition, insts: &Vec<InstantiatedType>) -> (r: Vec<Precondition>)
    requires
        p.name@.len() > 0,
    ensures
        forall|k: int| 0 <= k < r@.len() ==> (#[trigger] r@[k]).name@.len() > 0,
        p.impl_type is None ==> r@.len() == 1 && r@[0].name@ == p.name@ && r@[0].impl_type is None,
        p.impl_type is Some ==> {
            let ms = matching_aliases(insts@, p.impl_type->0@);
            if ms.len() == 0 {
                r@.len() == 1 && r@[0].name@ == p.name@ && r@[0].impl_type is Some
            } else {
                r@.len() == ms.len() && forall|k: int|
                    0 <= k < ms.len() ==> {
                        &&& (#[trigger] r@[k]).name@ == ms[k].push(p.name@.last())
                        &&& opt_type_view(&r@[k].impl_type) == Some(TypeV::Precise(ms[k]))
                    }
            }
        },
{
    match &p.impl_type {
        None => {
            let mut r: Vec<Precondition> = Vec::new();
            r.push(p.duplicate());
            r
        },
        Some(it) => {
            let ghost itv = it@;
            let mut r: Vec<Precondition> = Vec::new();
            let mut i: usize = 0;
            let ident = match p.name.last() {
                Some(s) => s.clone(),
                None => {
                    proof {
                        assert(false);
                    }
                    unreached()
                },
            };
            while i < insts.len()
                invariant
                    i <= insts@.len(),
                    itv == p.impl_type->0@,
                    it@ == itv,
                    p.impl_type is Some,
                    p.name@.len() > 0,
                    ident@ == p.name@.last(),
                    r@.len() == matching_aliases(insts@.take(i as int), itv).len(),
                    forall|k: int|
                        0 <= k < r@.len() ==> {
                            let ms = matching_aliases(insts@.take(i as int), itv);
                            &&& (#[trigger] r@[k]).name@ == ms[k].push(p.name@.last())
                            &&& opt_type_view(&r@[k].impl_type) == Some(TypeV::Precise(ms[k]))
                            &&& r@[k].name@.len() > 0
                        },
                decreases insts@.len() - i,
            {
                let ghost pre = matching_aliases(insts@.take(i as int), itv);
                proof {
                    assert(insts@.take(i as int + 1).drop_last() =~= insts@.take(i as int));
                    assert(insts@.take(i as int + 1).last() == insts@[i as int]);
                }
                if insts[i].concrete.eq_ignore_generics(it) {
                    let alias = insts[i].alias.duplicate();
                    let new_name = insts[i].alias.duplicate().join(ident.clone());
                    let np = Precondition {
                        name: new_name,
                        impl_type: Some(Type::Precise(PreciseType(alias))),
                    };
                    r.push(np);
                    proof {
                        let ms = matching_aliases(insts@.take(i as int + 1), itv);
                        assert(ms == pre.push(insts@[i as int].alias@));
                    }
                } else {
                    proof {
                        assert(matching_aliases(insts@.take(i as int + 1), itv) == pre);
                    }
                }
                i += 1;
            }
            proof {
                assert(insts@.take(insts@.len() as int) =~= insts@);
            }
            if r.len() == 0 {
                r.push(p.duplicate());
            }
            r
        },
    }
}

/// The checker: the two sources, the four worklists, and the harness
/// ingredients.
pub struct Checker {
    /// First source file.
    pub src1: Source,
    /// Second source file.
    pub src2: Source,
    /// Functions still under checking.
    pub under_checking_funcs: Vec<CommonFunction>,
    /// Functions verified by a formal component.
    pub verified_funcs: Vec<CommonFunction>,
    /// Functions that passed a testing component.
    pub tested_funcs: Vec<CommonFunction>,
    /// Functions refuted by a testing component.
    pub failed_funcs: Vec<CommonFunction>,
    /// Constructors, not checked directly.
    pub constructors: Vec<CommonFunction>,
    /// Getters, not checked directly.
    pub getters: Vec<CommonFunction>,
    /// Preconditions used to prune irrelevant inputs.
    pub preconditions: Vec<Precondition>,
    /// Strict mode: stop after a testing component reports a fail.
    pub strict: bool,
}

/// Two instantiation lists share a matching entry: a value present in
/// both whose concrete type matches `ty` when generics are ignored.
pub open spec fn shared_matching(
    l1: Seq<InstantiatedType>,
    l2: Seq<InstantiatedType>,
    a: int,
    b: int,
    ty: TypeV,
) -> bool {
    0 <= a < l1.len() && 0 <= b < l2.len() && inst_eq(l1[a], l2[b]) && eq_ignore_generics_spec(
        l1[a].concrete@,
        ty,
    )
}

/// The name stands in one of three lists.
pub open spec fn placed_lists(
    cs: Seq<CommonFunction>,
    gs: Seq<CommonFunction>,
    us: Seq<CommonFunction>,
    n: Seq<Seq<char>>,
) -> bool {
    has_name(cs, n) || has_name(gs, n) || has_name(us, n)
}

/// The name stands in one of the checker's partitioned worklists.
pub open spec fn placed(r: Checker, n: Seq<Seq<char>>) -> bool {
    placed_lists(r.constructors@, r.getters@, r.under_checking_funcs@, n)
}

/// A matched source function reaches the worklists: under its own name
/// when its impl type is absent or matched by no shared instantiation, and
/// under every alias of a shared matching instantiation otherwise.
pub open spec fn pair_placed(
    r: Checker,
    f: Function,
    insts1: Seq<InstantiatedType>,
    insts2: Seq<InstantiatedType>,
) -> bool {
    match f.metadata@.impl_type {
        None => placed(r, f.metadata.name@),
        Some(ty) => {
            &&& (placed(r, f.metadata.name@) || exists|a: int, b: int|
                #[trigger] shared_matching(insts1, insts2, a, b, ty))
            &&& forall|a: int, b: int|
                #[trigger] shared_matching(insts1, insts2, a, b, ty) ==> placed(
                    r,
                    insts1[a].alias@.push(f.metadata.signature@.ident),
                )
        },
    }
}

/// The names that rewriting one common function puts into the output: its
/// own name when no instantiation matches its impl type, the alias-renamed
/// names otherwise.
pub open spec fn batch_names_in(
    c: CommonFunction,
    insts: Seq<InstantiatedType>,
    out: Seq<CommonFunction>,
) -> bool {
    match c.metadata@.impl_type {
        None => has_name(out, c.metadata.name@),
        Some(ty) => {
            let ms = matching_aliases(insts, ty);
            if ms.len() == 0 {
                has_name(out, c.metadata.name@)
            } else {
                forall|x: int|
                    0 <= x < ms.len() ==> has_name(
                        out,
                        (#[trigger] ms[x]).push(c.metadata.signature@.ident),
                    )
            }
        },
    }
}

/// The batch names stay present when the output grows on the right.
pub proof fn lemma_batch_names_grow(
    c: CommonFunction,
    insts: Seq<InstantiatedType>,
    a: Seq<CommonFunction>,
    b: Seq<CommonFunction>,
)
    requires
        batch_names_in(c, insts, a) || batch_names_in(c, insts, b),
    ensures
        batch_names_in(c, insts, a + b),
{
    match c.metadata@.impl_type {
        None => {
            lemma_has_name_append(a, b, c.metadata.name@);
        },
        Some(ty) => {
            let ms = matching_aliases(insts, ty);
            if ms.len() == 0 {
                lemma_has_name_append(a, b, c.metadata.name@);
            } else {
                assert forall|x: int| 0 <= x < ms.len() implies has_name(
                    a + b,
                    (#[trigger] ms[x]).push(c.metadata.signature@.ident),
                ) by {
                    lemma_has_name_append(a, b, ms[x].push(c.metadata.signature@.ident));
                }
            }
        },
    }
}

impl Checker {
    /// The terminal worklists are pairwise disjoint.  `tested` is exempt: a
    /// tested function stays under checking and may later move to `verified`
    /// or `failed` while remaining recorded as tested.
    pub open spec fn terminal_disjoint(&self) -> bool {
        &&& disjoint_names(self.under_checking_funcs@, self.verified_funcs@)
        &&& disjoint_names(self.under_checking_funcs@, self.failed_funcs@)
        &&& disjoint_names(self.verified_funcs@, self.failed_funcs@)
    }

    /// Create a checker and preprocess.
    ///
    /// Preprocessing matches common functions across the two sources,
    /// removes them from the per-source unique lists, rewrites common
    /// functions and preconditions through the instantiated type aliases
    /// shared by both sources, and partitions the result into constructors,
    /// getters and the under-checking list.  The other worklists start
    /// empty.
    pub fn new(
        src1: Source,
        src2: Source,
        preconditions: Vec<Precondition>,
        strict: bool,
    ) -> (r: Checker)
        requires
            forall|i: int|
                0 <= i < preconditions@.len() ==> (#[trigger] preconditions@[i]).name@.len() > 0,
        ensures
            r.verified_funcs@.len() == 0,
            r.tested_funcs@.len() == 0,
            r.failed_funcs@.len() == 0,
            r.terminal_disjoint(),
            r.strict == strict,
            forall|k: int|
                0 <= k < r.constructors@.len() ==> (#[trigger] r.constructors@[k]).metadata@.is_constructor(),
            forall|k: int|
                0 <= k < r.getters@.len() ==> (#[trigger] r.getters@[k]).metadata@.is_getter(),
            forall|k: int|
                0 <= k < r.under_checking_funcs@.len() ==> !(#[trigger] r.under_checking_funcs@[k]).metadata@.is_constructor() && !r.under_checking_funcs@[k].metadata@.is_getter(),
            forall|k: int|
                0 <= k < r.preconditions@.len() ==> (#[trigger] r.preconditions@[k]).name@.len() > 0,
            // completeness: every pair of source functions with the same
            // fully qualified name and an equal signature reaches the
            // worklists, under its own name or under the aliases of the
            // shared matching instantiations
            forall|i: int, j: int|
                0 <= i < src1.unique_funcs@.len() && 0 <= j < src2.unique_funcs@.len() && (
                #[trigger] src2.unique_funcs@[j]).metadata.name@ == (
                #[trigger] src1.unique_funcs@[i]).metadata.name@ && crate::defs::sig_eq(
                    src1.unique_funcs@[i].metadata.signature@,
                    src2.unique_funcs@[j].metadata.signature@,
                ) ==> pair_placed(
                    r,
                    src1.unique_funcs@[i],
                    src1.inst_types@,
                    src2.inst_types@,
                ),
    {
        let ghost l1v = src1.unique_funcs@;
        let ghost l2v = src2.unique_funcs@;
        let ghost i1v = src1.inst_types@;
        let ghost i2v = src2.inst_types@;
        let mut s1 = src1;
        let mut s2 = src2;
        let commons = match_common(&s1.unique_funcs, &s2.unique_funcs);
        let u1 = remove_matched(&s1.unique_funcs, &commons);
        s1.unique_funcs = u1;
        let u2 = remove_matched(&s2.unique_funcs, &commons);
        s2.unique_funcs = u2;
        let insts = intersect_inst_types(&s1.inst_types, &s2.inst_types);
        let mut rewritten: Vec<CommonFunction> = Vec::new();
        let mut i: usize = 0;
        while i < commons.len()
            invariant
                i <= commons@.len(),
                forall|k: int|
                    0 <= k < i ==> batch_names_in(#[trigger] commons@[k], insts@, rewritten@),
            decreases commons@.len() - i,
        {
            let mut batch = rewrite_common(&commons[i], &insts);
            let ghost prev = rewritten@;
            let ghost batchv = batch@;
            rewritten.append(&mut batch);
            proof {
                assert(rewritten@ == prev + batchv);
                let c = commons@[i as int];
                match c.metadata@.impl_type {
                    None => {
                        assert(batchv[0].metadata.name@ == c.metadata.name@);
                        assert(has_name(batchv, c.metadata.name@));
                    },
                    Some(ty) => {
                        let ms = matching_aliases(insts@, ty);
                        if ms.len() == 0 {
                            assert(batchv[0].metadata.name@ == c.metadata.name@);
                            assert(has_name(batchv, c.metadata.name@));
                        } else {
                            assert forall|x: int| 0 <= x < ms.len() implies has_name(
                                batchv,
                                (#[trigger] ms[x]).push(c.metadata.signature@.ident),
                            ) by {
                                assert(batchv[x].metadata.name@ == ms[x].push(
                                    c.metadata.signature@.ident,
                                ));
                            }
                        }
                    },
                }
                assert(batch_names_in(c, insts@, batchv));
                assert forall|k: int| 0 <= k < i + 1 implies batch_names_in(
                    #[trigger] commons@[k],
                    insts@,
                    rewritten@,
                ) by {
                    lemma_batch_names_grow(commons@[k], insts@, prev, batchv);
                }
            }
            i += 1;
        }
        let mut pre2: Vec<Precondition> = Vec::new();
        i = 0;
        while i < preconditions.len()
            invariant
                i <= preconditions@.len(),
                forall|i2: int|
                    0 <= i2 < preconditions@.len() ==> (#[trigger] preconditions@[i2]).name@.len() > 0,
                forall|k: int| 0 <= k < pre2@.len() ==> (#[trigger] pre2@[k]).name@.len() > 0,
            decreases preconditions@.len() - i,
        {
            let mut batch = rewrite_precond(&preconditions[i], &insts);
            let ghost pre_len = pre2@.len();
            let ghost batch_v = batch@;
            pre2.append(&mut batch);
            proof {
                assert forall|k: int| 0 <= k < pre2@.len() implies (#[trigger] pre2@[k]).name@.len() > 0 by {
                    if k >= pre_len {
                        assert(pre2@[k] == batch_v[k - pre_len]);
                    }
                }
            }
            i += 1;
        }
        let mut constructors: Vec<CommonFunction> = Vec::new();
        let mut getters: Vec<CommonFunction> = Vec::new();
        let mut under: Vec<CommonFunction> = Vec::new();
        i = 0;
        while i < rewritten.len()
            invariant
                i <= rewritten@.len(),
                forall|k: int|
                    0 <= k < constructors@.len() ==> (#[trigger] constructors@[k]).metadata@.is_constructor(),
                forall|k: int|
                    0 <= k < getters@.len() ==> (#[trigger] getters@[k]).metadata@.is_getter(),
                forall|k: int|
                    0 <= k < under@.len() ==> !(#[trigger] under@[k]).metadata@.is_constructor()
                        && !under@[k].metadata@.is_getter(),
                forall|k: int|
                    0 <= k < i ==> placed_lists(
                        constructors@,
                        getters@,
                        under@,
                        (#[trigger] rewritten@[k]).metadata.name@,
                    ),
            decreases rewritten@.len() - i,
        {
            let ghost pre_c = constructors@;
            let ghost pre_g = getters@;
            let ghost pre_u = under@;
            let f = &rewritten[i];
            if f.metadata.is_constructor() {
                constructors.push(f.duplicate());
            } else if f.metadata.is_getter() {
                getters.push(f.duplicate());
            } else {
                under.push(f.duplicate());
            }
            proof {
                assert forall|k: int| 0 <= k < i + 1 implies placed_lists(
                    constructors@,
                    getters@,
                    under@,
                    (#[trigger] rewritten@[k]).metadata.name@,
                ) by {
                    let n = rewritten@[k].metadata.name@;
                    if constructors@ != pre_c {
                        lemma_has_name_push(pre_c, constructors@[constructors@.len() - 1], n);
                    }
                    if getters@ != pre_g {
                        lemma_has_name_push(pre_g, getters@[getters@.len() - 1], n);
                    }
                    if under@ != pre_u {
                        lemma_has_name_push(pre_u, under@[under@.len() - 1], n);
                    }
                }
            }
            i += 1;
        }
        let r = Checker {
            src1: s1,
            src2: s2,
            under_checking_funcs: under,
            verified_funcs: Vec::new(),
            tested_funcs: Vec::new(),
            failed_funcs: Vec::new(),
            constructors,
            getters,
            preconditions: pre2,
            strict,
        };
        proof {
            assert(forall|n: Seq<Seq<char>>| !has_name(r.verified_funcs@, n));
            assert(forall|n: Seq<Seq<char>>| !has_name(r.failed_funcs@, n));
            assert forall|i2: int, j2: int|
                0 <= i2 < l1v.len() && 0 <= j2 < l2v.len() && (
                #[trigger] l2v[j2]).metadata.name@ == (#[trigger] l1v[i2]).metadata.name@
                    && crate::defs::sig_eq(
                    l1v[i2].metadata.signature@,
                    l2v[j2].metadata.signature@,
                ) implies pair_placed(r, l1v[i2], i1v, i2v) by {
                assert(some_match(l1v[i2], l2v));
                assert(has_common_for(commons@, l1v[i2]));
                let k0 = choose|k: int|
                    0 <= k < commons@.len() && (#[trigger] commons@[k]).metadata@ == l1v[
                        i2
                    ].metadata@ && commons@[k].body1@ == l1v[i2].body@;
                let c = commons@[k0];
                assert(batch_names_in(c, insts@, rewritten@));
                match l1v[i2].metadata@.impl_type {
                    None => {
                        assert(has_name(rewritten@, c.metadata.name@));
                        let w = choose|w: int|
                            0 <= w < rewritten@.len() && (#[trigger] rewritten@[w]).metadata.name@
                                == c.metadata.name@;
                        assert(placed(r, l1v[i2].metadata.name@));
                    },
                    Some(ty) => {
                        let ms = matching_aliases(insts@, ty);
                        if ms.len() == 0 {
                            assert(has_name(rewritten@, c.metadata.name@));
                            let w = choose|w: int|
                                0 <= w < rewritten@.len() && (
                                #[trigger] rewritten@[w]).metadata.name@ == c.metadata.name@;
                            assert(placed(r, l1v[i2].metadata.name@));
                            assert forall|a: int, b: int|
                                #[trigger] shared_matching(i1v, i2v, a, b, ty) implies placed(
                                r,
                                i1v[a].alias@.push(l1v[i2].metadata.signature@.ident),
                            ) by {
                                assert(exists|q: int|
                                    0 <= q < i2v.len() && inst_eq(#[trigger] i1v[a], #[trigger] i2v[q]));
                                assert(has_inst(insts@, i1v[a]));
                                let p = choose|p: int|
                                    0 <= p < insts@.len() && inst_eq(#[trigger] insts@[p], i1v[a]);
                                assert(insts@[p].concrete@ == i1v[a].concrete@);
                                lemma_matching_aliases_contains(insts@, ty, p);
                                assert(ms.len() > 0);
                                assert(false);
                            }
                        } else {
                            lemma_matching_aliases_source(insts@, ty, 0);
                            let p0 = choose|p: int|
                                0 <= p < insts@.len() && eq_ignore_generics_spec(
                                    (#[trigger] insts@[p]).concrete@,
                                    ty,
                                ) && insts@[p].alias@ == ms[0];
                            assert(inst_in_both(insts@[p0], i1v, i2v));
                            let a0 = choose|a: int|
                                0 <= a < i1v.len() && inst_eq(insts@[p0], #[trigger] i1v[a]);
                            let b0 = choose|b: int|
                                0 <= b < i2v.len() && inst_eq(insts@[p0], #[trigger] i2v[b]);
                            assert(inst_eq(i1v[a0], i2v[b0]));
                            assert(eq_ignore_generics_spec(i1v[a0].concrete@, ty));
                            assert(shared_matching(i1v, i2v, a0, b0, ty));
                            assert forall|a: int, b: int|
                                #[trigger] shared_matching(i1v, i2v, a, b, ty) implies placed(
                                r,
                                i1v[a].alias@.push(l1v[i2].metadata.signature@.ident),
                            ) by {
                                assert(exists|q: int|
                                    0 <= q < i2v.len() && inst_eq(#[trigger] i1v[a], #[trigger] i2v[q]));
                                assert(has_inst(insts@, i1v[a]));
                                let p = choose|p: int|
                                    0 <= p < insts@.len() && inst_eq(#[trigger] insts@[p], i1v[a]);
                                assert(insts@[p].concrete@ == i1v[a].concrete@);
                                lemma_matching_aliases_contains(insts@, ty, p);
                                let x = choose|x: int|
                                    0 <= x < ms.len() && #[trigger] ms[x] == insts@[p].alias@;
                                assert(ms[x] == i1v[a].alias@);
                                assert(c.metadata@.signature.ident == l1v[
                                    i2
                                ].metadata.signature@.ident);
                                assert(has_name(rewritten@, ms[x].push(
                                    c.metadata.signature@.ident,
                                )));
                                let w = choose|w: int|
                                    0 <= w < rewritten@.len() && (
                                    #[trigger] rewritten@[w]).metadata.name@ == ms[x].push(
                                        c.metadata.signature@.ident,
                                    );
                                assert(placed(r, i1v[a].alias@.push(
                                    l1v[i2].metadata.signature@.ident,
                                )));
                            }
                        }
                    },
                }
                assert(pair_placed(r, l1v[i2], i1v, i2v));
            }
        }
        r
    }

    /// Whether checking is over because no function is left under checking.
    pub fn done_checking(&self) -> (r: bool)
        ensures
            r == (self.under_checking_funcs@.len() == 0),
    {
        self.under_checking_funcs.len() == 0
    }

    /// Merge one component's verdicts into the worklists.
    ///
    /// For a formal component every `ok` name under checking moves to
    /// `verified`; a formal `fail` is only inconclusive and changes nothing.
    /// For a testing component every `ok` name under checking is recorded in
    /// `tested` (without duplicates) but stays under checking; every `fail`
    /// name under checking moves to `failed`.  The returned flag asks the
    /// pipeline to stop: it is set exactly when a testing component produced
    /// fails in strict mode.
    pub fn apply_component_result(&mut self, is_formal: bool, res: &CheckResult) -> (stop: bool)
        ensures
            is_formal ==> {
                &&& forall|n: Seq<Seq<char>>|
                    has_name(final(self).under_checking_funcs@, n) == (has_name(
                        old(self).under_checking_funcs@,
                        n,
                    ) && !path_views(res.ok@).contains(n))
                &&& forall|n: Seq<Seq<char>>|
                    has_name(final(self).verified_funcs@, n) == (has_name(
                        old(self).verified_funcs@,
                        n,
                    ) || (has_name(old(self).under_checking_funcs@, n) && path_views(
                        res.ok@,
                    ).contains(n)))
                &&& final(self).failed_funcs == old(self).failed_funcs
                &&& final(self).tested_funcs == old(self).tested_funcs
            },
            // a formal component's fails never shrink the under-checking list
            is_formal && res.ok@.len() == 0 ==> forall|n: Seq<Seq<char>>|
                has_name(final(self).under_checking_funcs@, n) == has_name(
                    old(self).under_checking_funcs@,
                    n,
                ),
            !is_formal ==> {
                &&& forall|n: Seq<Seq<char>>|
                    has_name(final(self).under_checking_funcs@, n) == (has_name(
                        old(self).under_checking_funcs@,
                        n,
                    ) && !path_views(res.fail@).contains(n))
                &&& forall|n: Seq<Seq<char>>|
                    has_name(final(self).failed_funcs@, n) == (has_name(
                        old(self).failed_funcs@,
                        n,
                    ) || (has_name(old(self).under_checking_funcs@, n) && path_views(
                        res.fail@,
                    ).contains(n)))
                &&& forall|n: Seq<Seq<char>>|
                    has_name(final(self).tested_funcs@, n) == (has_name(
                        old(self).tested_funcs@,
                        n,
                    ) || (has_name(old(self).under_checking_funcs@, n) && path_views(
                        res.ok@,
                    ).contains(n)))
                &&& final(self).verified_funcs == old(self).verified_funcs
            },
            // a testing component's oks never shrink the under-checking list
            !is_formal && res.fail@.len() == 0 ==> forall|n: Seq<Seq<char>>|
                has_name(final(self).under_checking_funcs@, n) == has_name(
                    old(self).under_checking_funcs@,
                    n,
                ),
            stop == (!is_formal && res.fail@.len() > 0 && final(self).strict),
            names_unique(old(self).tested_funcs@) ==> names_unique(final(self).tested_funcs@),
            final(self).strict == old(self).strict,
            final(self).constructors == old(self).constructors,
            final(self).getters == old(self).getters,
            old(self).terminal_disjoint() ==> final(self).terminal_disjoint(),
    {
        if is_formal {
            let mut k: usize = 0;
            while k < res.ok.len()
                invariant
                    k <= res.ok@.len(),
                    forall|n: Seq<Seq<char>>|
                        has_name(self.under_checking_funcs@, n) == (has_name(
                            old(self).under_checking_funcs@,
                            n,
                        ) && !path_views(res.ok@.take(k as int)).contains(n)),
                    forall|n: Seq<Seq<char>>|
                        has_name(self.verified_funcs@, n) == (has_name(
                            old(self).verified_funcs@,
                            n,
                        ) || (has_name(old(self).under_checking_funcs@, n) && path_views(
                            res.ok@.take(k as int),
                        ).contains(n))),
                    self.failed_funcs == old(self).failed_funcs,
                    self.tested_funcs == old(self).tested_funcs,
                    self.strict == old(self).strict,
                    self.constructors == old(self).constructors,
                    self.getters == old(self).getters,
                decreases res.ok@.len() - k,
            {
                let ghost pre_under = self.under_checking_funcs@;
                let ghost pre_verified = self.verified_funcs@;
                let name = &res.ok[k];
                match find_by_name(&self.under_checking_funcs, name) {
                    Some(i) => {
                        let f = self.under_checking_funcs[i].duplicate();
                        self.verified_funcs.push(f);
                        let remaining = remove_by_name(&self.under_checking_funcs, name);
                        self.under_checking_funcs = remaining;
                        proof {
                            lemma_take_push_contains(res.ok@, k as int);
                            assert(has_name(pre_under, name@));
                            assert forall|n: Seq<Seq<char>>|
                                has_name(self.verified_funcs@, n) == (has_name(pre_verified, n)
                                    || n == name@ && has_name(pre_under, n)) by {
                                if has_name(self.verified_funcs@, n) {
                                    let j = choose|j: int|
                                        0 <= j < self.verified_funcs@.len()
                                            && self.verified_funcs@[j].metadata.name@ == n;
                                    if j < pre_verified.len() {
                                        assert(has_name(pre_verified, n));
                                    }
                                }
                                if has_name(pre_verified, n) {
                                    let j = choose|j: int|
                                        0 <= j < pre_verified.len()
                                            && pre_verified[j].metadata.name@ == n;
                                    assert(self.verified_funcs@[j].metadata.name@ == n);
                                }
                                if n == name@ && has_name(pre_under, n) {
                                    assert(self.verified_funcs@[self.verified_funcs@.len()
                                        - 1].metadata.name@ == n);
                                }
                            }
                        }
                    },
                    None => {
                        proof {
                            lemma_take_push_contains(res.ok@, k as int);
                        }
                    },
                }
                k += 1;
            }
            proof {
                assert(res.ok@.take(res.ok@.len() as int) =~= res.ok@);
            }
            false
        } else {
            let mut k: usize = 0;
            while k < res.ok.len()
                invariant
                    k <= res.ok@.len(),
                    self.under_checking_funcs == old(self).under_checking_funcs,
                    self.verified_funcs == old(self).verified_funcs,
                    self.failed_funcs == old(self).failed_funcs,
                    self.strict == old(self).strict,
                    self.constructors == old(self).constructors,
                    self.getters == old(self).getters,
                    forall|n: Seq<Seq<char>>|
                        has_name(self.tested_funcs@, n) == (has_name(old(self).tested_funcs@, n)
                            || (has_name(old(self).under_checking_funcs@, n) && path_views(
                            res.ok@.take(k as int),
                        ).contains(n))),
                    names_unique(old(self).tested_funcs@) ==> names_unique(self.tested_funcs@),
                decreases res.ok@.len() - k,
            {
                let ghost pre_tested = self.tested_funcs@;
                let name = &res.ok[k];
                match find_by_name(&self.under_checking_funcs, name) {
                    Some(i) => {
                        match find_by_name(&self.tested_funcs, name) {
                            Some(_) => {
                                proof {
                                    lemma_take_push_contains(res.ok@, k as int);
                                }
                            },
                            None => {
                                let f = self.under_checking_funcs[i].duplicate();
                                self.tested_funcs.push(f);
                                proof {
                                    lemma_take_push_contains(res.ok@, k as int);
                                    assert(!has_name(pre_tested, name@));
                                    assert(self.tested_funcs@[self.tested_funcs@.len()
                                        - 1].metadata.name@ == name@);
                                    if names_unique(pre_tested) {
                                        assert forall|k1: int, k2: int|
                                            0 <= k1 < k2 < self.tested_funcs@.len() implies (
                                        #[trigger] self.tested_funcs@[k1]).metadata.name@ != (
                                        #[trigger] self.tested_funcs@[k2]).metadata.name@ by {
                                            if k2 == self.tested_funcs@.len() - 1 {
                                                assert(self.tested_funcs@[k1] == pre_tested[k1]);
                                                if self.tested_funcs@[k1].metadata.name@
                                                    == name@ {
                                                    assert(pre_tested[k1].metadata.name@
                                                        == name@);
                                                    assert(has_name(pre_tested, name@));
                                                }
                                            } else {
                                                assert(self.tested_funcs@[k1] == pre_tested[k1]);
                                                assert(self.tested_funcs@[k2] == pre_tested[k2]);
                                            }
                                        }
                                    }
                                    assert forall|n: Seq<Seq<char>>|
                                        has_name(self.tested_funcs@, n) == (has_name(
                                            pre_tested,
                                            n,
                                        ) || n == name@) by {
                                        if has_name(self.tested_funcs@, n) {
                                            let j = choose|j: int|
                                                0 <= j < self.tested_funcs@.len()
                                                    && self.tested_funcs@[j].metadata.name@ == n;
                                            if j < pre_tested.len() {
                                                assert(has_name(pre_tested, n));
                                            }
                                        }
                                        if has_name(pre_tested, n) {
                                            let j = choose|j: int|
                                                0 <= j < pre_tested.len()
                                                    && pre_tested[j].metadata.name@ == n;
                                            assert(self.tested_funcs@[j].metadata.name@ == n);
                                        }
                                        if n == name@ {
                                            assert(self.tested_funcs@[self.tested_funcs@.len()
                                                - 1].metadata.name@ == n);
                                        }
                                    }
                                }
                            },
                        }
                    },
                    None => {
                        proof {
                            lemma_take_push_contains(res.ok@, k as int);
                        }
                    },
                }
                k += 1;
            }
            proof {
                assert(res.ok@.take(res.ok@.len() as int) =~= res.ok@);
            }
            let mut k: usize = 0;
            while k < res.fail.len()
                invariant
                    k <= res.fail@.len(),
                    self.verified_funcs == old(self).verified_funcs,
                    names_unique(old(self).tested_funcs@) ==> names_unique(self.tested_funcs@),
                    self.strict == old(self).strict,
                    self.constructors == old(self).constructors,
                    self.getters == old(self).getters,
                    forall|n: Seq<Seq<char>>|
                        has_name(self.under_checking_funcs@, n) == (has_name(
                            old(self).under_checking_funcs@,
                            n,
                        ) && !path_views(res.fail@.take(k as int)).contains(n)),
                    forall|n: Seq<Seq<char>>|
                        has_name(self.failed_funcs@, n) == (has_name(old(self).failed_funcs@, n)
                            || (has_name(old(self).under_checking_funcs@, n) && path_views(
                            res.fail@.take(k as int),
                        ).contains(n))),
                    forall|n: Seq<Seq<char>>|
                        has_name(self.tested_funcs@, n) == (has_name(old(self).tested_funcs@, n)
                            || (has_name(old(self).under_checking_funcs@, n) && path_views(
                            res.ok@,
                        ).contains(n))),
                decreases res.fail@.len() - k,
            {
                let ghost pre_under = self.under_checking_funcs@;
                let ghost pre_failed = self.failed_funcs@;
                let name = &res.fail[k];
                match find_by_name(&self.under_checking_funcs, name) {
                    Some(i) => {
                        let f = self.under_checking_funcs[i].duplicate();
                        self.failed_funcs.push(f);
                        let remaining = remove_by_name(&self.under_checking_funcs, name);
                        self.under_checking_funcs = remaining;
                        proof {
                            lemma_take_push_contains(res.fail@, k as int);
                            assert(has_name(pre_under, name@));
                            assert forall|n: Seq<Seq<char>>|
                                has_name(self.failed_funcs@, n) == (has_name(pre_failed, n) || n
                                    == name@ && has_name(pre_under, n)) by {
                                if has_name(self.failed_funcs@, n) {
                                    let j = choose|j: int|
                                        0 <= j < self.failed_funcs@.len()
                                            && self.failed_funcs@[j].metadata.name@ == n;
                                    if j < pre_failed.len() {
                                        assert(has_name(pre_failed, n));
                                    }
                                }
                                if has_name(pre_failed, n) {
                                    let j = choose|j: int|
                                        0 <= j < pre_failed.len()
                                            && pre_failed[j].metadata.name@ == n;
                                    assert(self.failed_funcs@[j].metadata.name@ == n);
                                }
                                if n == name@ && has_name(pre_under, n) {
                                    assert(self.failed_funcs@[self.failed_funcs@.len()
                                        - 1].metadata.name@ == n);
                                }
                            }
                        }
                    },
                    None => {
                        proof {
                            lemma_take_push_contains(res.fail@, k as int);
                        }
                    },
                }
                k += 1;
            }
            proof {
                assert(res.fail@.take(res.fail@.len() as int) =~= res.fail@);
            }
            res.fail.len() > 0 && self.strict
        }
    }
}

/// The path views of a prefix extended by one element.
proof fn lemma_take_push_contains(ps: Seq<Path>, k: int)
    requires
        0 <= k < ps.len(),
    ensures
        forall|n: Seq<Seq<char>>|
            path_views(ps.take(k + 1)).contains(n) == (path_views(ps.take(k)).contains(n) || n
                == ps[k]@),
{
    assert forall|n: Seq<Seq<char>>|
        path_views(ps.take(k + 1)).contains(n) == (path_views(ps.take(k)).contains(n) || n
            == ps[k]@) by {
        let a = path_views(ps.take(k + 1));
        let b = path_views(ps.take(k));
        assert(a.len() == k + 1 && b.len() == k);
        if a.contains(n) {
            let j = choose|j: int| 0 <= j < a.len() && a[j] == n;
            if j < k {
                assert(b[j] == n);
                assert(b.contains(n));
            } else {
                assert(ps.take(k + 1)[k] == ps[k]);
            }
        }
        if b.contains(n) {
            let j = choose|j: int| 0 <= j < b.len() && b[j] == n;
            assert(a[j] == n);
            assert(a.contains(n));
        }
        if n == ps[k]@ {
            assert(a[k] == ps.take(k + 1)[k]@);
            assert(a.contains(n));
        }
    }
}

} // verus!
