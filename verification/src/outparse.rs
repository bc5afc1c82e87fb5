//! Parsers for the documented output lines of the external tools.
//!
//! Each tool's verdicts are read from plain text: a line naming the harness
//! under analysis, followed by a success or failure marker.  The scanners
//! here are exact: each one is specified as a left-to-right fold over the
//! lines.

use vstd::prelude::*;

verus! {

use crate::checker::CheckResult;
use crate::checker::path_views;
use crate::path::Path;
use crate::path::sep_ident;
use crate::text::first_occurrence;
use crate::text::occurs_at;
use crate::text::find_str;
use crate::text::contains_str;
use crate::text::starts_with_str;
use crate::text::starts_with_spec;
use crate::text::find_char;
use crate::text::first_index;
use crate::text::lemma_first_index_characterizes;
use crate::text::lemma_first_occurrence_characterizes;
use vstd::string::StrSliceExecFns;
use vstd::string::StringExecFns;

/// Split `s` on every occurrence of the pattern `p`, scanning left to right.
pub open spec fn split_on_pat(s: Seq<char>, p: Seq<char>) -> Seq<Seq<char>>
    decreases s.len(),
{
    if p.len() == 0 {
        seq![s]
    } else {
        match first_occurrence(s, p) {
            None => seq![s],
            Some(i) => {
                if 0 <= i && i + p.len() <= s.len() {
                    seq![s.take(i)] + split_on_pat(s.skip(i + p.len() as int), p)
                } else {
                    seq![s]
                }
            },
        }
    }
}

/// Split `s` on every occurrence of `p`, returning owned segments.
pub fn split_string(s: &str, p: &str) -> (r: Vec<String>)
    requires
        p@.len() >= 1,
    ensures
        r@.map_values(|x: String| x@) == split_on_pat(s@, p@),
{
    let mut segs: Vec<String> = Vec::new();
    let mut rest: String = s.to_owned();
    let m = p.unicode_len();
    loop
        invariant
            m == p@.len(),
            m >= 1,
            segs@.map_values(|x: String| x@) + split_on_pat(rest@, p@) =~= split_on_pat(s@, p@),
        decreases rest@.len(),
    {
        proof {
            lemma_first_occurrence_characterizes(rest@, p@);
        }
        match find_str(rest.as_str(), p) {
            Some(i) => {
                let n = rest.as_str().unicode_len();
                let seg = rest.as_str().substring_char(0, i).to_owned();
                let next = rest.as_str().substring_char(i + m, n).to_owned();
                proof {
                    assert(seg@ =~= rest@.take(i as int));
                    assert(next@ =~= rest@.skip(i + m));
                }
                segs.push(seg);
                proof {
                    assert(segs@.map_values(|x: String| x@) + split_on_pat(next@, p@)
                        =~= split_on_pat(s@, p@));
                }
                rest = next;
            },
            None => {
                segs.push(rest);
                proof {
                    assert(segs@.map_values(|x: String| x@) =~= split_on_pat(s@, p@));
                }
                return segs;
            },
        }
    }
}

/// Turn a flattened harness identifier back into a path: the `___`
/// separators become path boundaries.
pub fn ident_to_path(name: &str) -> (r: Path)
    ensures
        r@ == split_on_pat(name@, sep_ident()),
{
    proof {
        reveal_strlit("___");
        assert("___"@ =~= sep_ident());
    }
    Path(split_string(name, "___"))
}

/// Whether `c` may appear in a harness identifier.
pub open spec fn is_word_char(c: char) -> bool {
    ('0' <= c && c <= '9') || ('a' <= c && c <= 'z') || ('A' <= c && c <= 'Z') || c == '_'
}

/// The number of identifier characters at the start of `s`.
pub open spec fn leading_word_count(s: Seq<char>) -> int
    decreases s.len(),
{
    if s.len() == 0 || !is_word_char(s[0]) {
        0
    } else {
        1 + leading_word_count(s.drop_first())
    }
}

pub proof fn lemma_leading_word_count(s: Seq<char>)
    ensures
        0 <= leading_word_count(s) <= s.len(),
        forall|j: int| 0 <= j < leading_word_count(s) ==> is_word_char(s[j]),
        leading_word_count(s) < s.len() ==> !is_word_char(s[leading_word_count(s)]),
    decreases s.len(),
{
    if s.len() == 0 || !is_word_char(s[0]) {
    } else {
        lemma_leading_word_count(s.drop_first());
        let t = s.drop_first();
        assert forall|j: int| 0 <= j < leading_word_count(s) implies is_word_char(s[j]) by {
            if j > 0 {
                assert(is_word_char(t[j - 1]));
            }
        }
    }
}

/// The number of non-space characters at the start of `s`.
pub open spec fn leading_nonspace_count(s: Seq<char>) -> int
    decreases s.len(),
{
    if s.len() == 0 || s[0] == ' ' {
        0
    } else {
        1 + leading_nonspace_count(s.drop_first())
    }
}

pub proof fn lemma_leading_nonspace_count(s: Seq<char>)
    ensures
        0 <= leading_nonspace_count(s) <= s.len(),
        forall|j: int| 0 <= j < leading_nonspace_count(s) ==> s[j] != ' ',
        leading_nonspace_count(s) < s.len() ==> s[leading_nonspace_count(s)] == ' ',
    decreases s.len(),
{
    if s.len() == 0 || s[0] == ' ' {
    } else {
        lemma_leading_nonspace_count(s.drop_first());
        let t = s.drop_first();
        assert forall|j: int| 0 <= j < leading_nonspace_count(s) implies s[j] != ' ' by {
            if j > 0 {
                assert(t[j - 1] != ' ');
            }
        }
    }
}

/// Whether `c` is an identifier character.
pub fn word_char(c: char) -> (r: bool)
    ensures
        r == is_word_char(c),
{
    ('0' <= c && c <= '9') || ('a' <= c && c <= 'z') || ('A' <= c && c <= 'Z') || c == '_'
}

/// The identifier run at the start of `s`.
pub fn take_word_run(s: &str) -> (r: String)
    ensures
        r@ == s@.take(leading_word_count(s@)),
{
    let n = s.unicode_len();
    let mut i: usize = 0;
    proof {
        lemma_leading_word_count(s@);
    }
    while i < n && word_char(s.get_char(i))
        invariant
            i <= n,
            n == s@.len(),
            forall|j: int| 0 <= j < i ==> is_word_char(s@[j]),
            i <= leading_word_count(s@),
        decreases n - i,
    {
        proof {
            lemma_leading_word_count(s@);
            if leading_word_count(s@) <= i {
                assert(!is_word_char(s@[leading_word_count(s@)]));
            }
        }
        i += 1;
    }
    proof {
        lemma_leading_word_count(s@);
        if i < n {
            if leading_word_count(s@) > i {
                assert(is_word_char(s@[i as int]));
            }
        }
        assert(i == leading_word_count(s@));
    }
    s.substring_char(0, i).to_owned()
}

/// The non-space run at the start of `s`.
pub fn take_nonspace_run(s: &str) -> (r: String)
    ensures
        r@ == s@.take(leading_nonspace_count(s@)),
{
    let n = s.unicode_len();
    let mut i: usize = 0;
    proof {
        lemma_leading_nonspace_count(s@);
    }
    while i < n && s.get_char(i) != ' '
        invariant
            i <= n,
            n == s@.len(),
            forall|j: int| 0 <= j < i ==> s@[j] != ' ',
            i <= leading_nonspace_count(s@),
        decreases n - i,
    {
        proof {
            lemma_leading_nonspace_count(s@);
            if leading_nonspace_count(s@) <= i {
                assert(s@[leading_nonspace_count(s@)] == ' ');
            }
        }
        i += 1;
    }
    proof {
        lemma_leading_nonspace_count(s@);
        if i < n {
            if leading_nonspace_count(s@) > i {
                assert(s@[i as int] != ' ');
            }
        }
        assert(i == leading_nonspace_count(s@));
    }
    s.substring_char(0, i).to_owned()
}

/// The text after the first occurrence of `p` in `s`, if `p` occurs.
pub open spec fn after_first(s: Seq<char>, p: Seq<char>) -> Option<Seq<char>> {
    match first_occurrence(s, p) {
        None => None,
        Some(i) => Some(s.skip(i + p.len() as int)),
    }
}

/// The text after the first occurrence of `p` in `s`.
pub fn find_after(s: &str, p: &str) -> (r: Option<String>)
    requires
        p@.len() >= 1,
    ensures
        match r {
            Some(t) => after_first(s@, p@) == Some(t@),
            None => after_first(s@, p@) is None,
        },
{
    proof {
        lemma_first_occurrence_characterizes(s@, p@);
    }
    match find_str(s, p) {
        Some(i) => {
            let n = s.unicode_len();
            let m = p.unicode_len();
            let t = s.substring_char(i + m, n).to_owned();
            proof {
                assert(t@ =~= s@.skip(i + m));
            }
            Some(t)
        },
        None => None,
    }
}

/// The views of a list of owned lines.
pub open spec fn line_views(ls: Seq<String>) -> Seq<Seq<char>> {
    ls.map_values(|s: String| s@)
}

/// Whether the marker `m` occurs anywhere in `line`.
pub open spec fn has_marker(line: Seq<char>, m: Seq<char>) -> bool {
    exists|j: int| occurs_at(line, m, j)
}

/// The number of spaces at the start of `s`, dropped.
pub fn skip_spaces(s: &str) -> (r: String)
    ensures
        r@ == s@.skip(crate::text::leading_count(s@, ' ')),
{
    let n = s.unicode_len();
    let mut i: usize = 0;
    proof {
        crate::text::lemma_leading_count(s@, ' ');
    }
    while i < n && s.get_char(i) == ' '
        invariant
            i <= n,
            n == s@.len(),
            forall|j: int| 0 <= j < i ==> s@[j] == ' ',
            i <= crate::text::leading_count(s@, ' '),
        decreases n - i,
    {
        proof {
            crate::text::lemma_leading_count(s@, ' ');
            if crate::text::leading_count(s@, ' ') <= i {
                assert(s@[crate::text::leading_count(s@, ' ')] != ' ');
            }
        }
        i += 1;
    }
    proof {
        crate::text::lemma_leading_count(s@, ' ');
        if i < n && crate::text::leading_count(s@, ' ') > i {
            assert(s@[i as int] == ' ');
        }
        assert(i == crate::text::leading_count(s@, ' '));
    }
    s.substring_char(i, n).to_owned()
}

/// The harness name on a symbolic-prover line: the identifier between
/// `Checking harness check_` and a following dot.
pub open spec fn kani_harness_name(line: Seq<char>) -> Option<Seq<char>> {
    match after_first(line, "Checking harness check_"@) {
        None => None,
        Some(after) => {
            let k = leading_word_count(after);
            if k > 0 && k < after.len() && after[k] == '.' {
                Some(after.take(k))
            } else {
                None
            }
        },
    }
}

/// Parse the harness name off one symbolic-prover line.
pub fn parse_kani_harness_name(line: &str) -> (r: Option<String>)
    ensures
        match r {
            Some(s) => kani_harness_name(line@) == Some(s@),
            None => kani_harness_name(line@) is None,
        },
{
    proof {
        reveal_strlit("Checking harness check_");
    }
    match find_after(line, "Checking harness check_") {
        Some(after) => {
            let run = take_word_run(after.as_str());
            let k = run.as_str().unicode_len();
            let n = after.as_str().unicode_len();
            proof {
                lemma_leading_word_count(after@);
            }
            if k > 0 && k < n && after.as_str().get_char(k) == '.' {
                Some(run)
            } else {
                None
            }
        },
        None => None,
    }
}

/// The symbolic-prover scan state: verdicts so far and the harness named
/// most recently without a verdict yet.
pub open spec fn kani_step(
    st: (Seq<Seq<Seq<char>>>, Seq<Seq<Seq<char>>>, Option<Seq<char>>),
    line: Seq<char>,
) -> (Seq<Seq<Seq<char>>>, Seq<Seq<Seq<char>>>, Option<Seq<char>>) {
    let named = kani_harness_name(line);
    let cur = if named is Some {
        named
    } else {
        st.2
    };
    if has_marker(line, "VERIFICATION:- SUCCESSFUL"@) && cur is Some {
        (st.0.push(split_on_pat(cur->0, sep_ident())), st.1, None)
    } else if has_marker(line, "VERIFICATION:- FAILED"@) && cur is Some {
        (st.0, st.1.push(split_on_pat(cur->0, sep_ident())), None)
    } else {
        (st.0, st.1, cur)
    }
}

/// Fold [`kani_step`] over the lines.
pub open spec fn kani_scan(lines: Seq<Seq<char>>) -> (
    Seq<Seq<Seq<char>>>,
    Seq<Seq<Seq<char>>>,
    Option<Seq<char>>,
)
    decreases lines.len(),
{
    if lines.len() == 0 {
        (Seq::empty(), Seq::empty(), None)
    } else {
        kani_step(kani_scan(lines.drop_last()), lines.last())
    }
}

proof fn lemma_kani_scan_step(lv: Seq<Seq<char>>, i: int)
    requires
        0 <= i < lv.len(),
    ensures
        kani_scan(lv.take(i + 1)) == kani_step(kani_scan(lv.take(i)), lv[i]),
{
    assert(lv.take(i + 1).drop_last() =~= lv.take(i));
    assert(lv.take(i + 1).last() == lv[i]);
}

/// Read the symbolic prover's output: each harness is named on a `Checking
/// harness check_<name>.` line; a later `VERIFICATION:- SUCCESSFUL` or
/// `VERIFICATION:- FAILED` line delivers its verdict.
pub fn analyze_kani_lines(lines: &Vec<String>) -> (r: CheckResult)
    ensures
        r.status is Ok,
        path_views(r.ok@) == kani_scan(line_views(lines@)).0,
        path_views(r.fail@) == kani_scan(line_views(lines@)).1,
{
    let ghost lv = line_views(lines@);
    let mut ok: Vec<Path> = Vec::new();
    let mut fail: Vec<Path> = Vec::new();
    let mut cur: Option<String> = None;
    let mut i: usize = 0;
    proof {
        reveal_strlit("VERIFICATION:- SUCCESSFUL");
        reveal_strlit("VERIFICATION:- FAILED");
        assert(lv.take(0) =~= Seq::<Seq<char>>::empty());
        assert(path_views(ok@) =~= kani_scan(lv.take(0)).0);
        assert(path_views(fail@) =~= kani_scan(lv.take(0)).1);
    }
    while i < lines.len()
        invariant
            i <= lines@.len(),
            lv == line_views(lines@),
            lv.len() == lines@.len(),
            path_views(ok@) == kani_scan(lv.take(i as int)).0,
            path_views(fail@) == kani_scan(lv.take(i as int)).1,
            match cur {
                Some(ref s) => kani_scan(lv.take(i as int)).2 == Some(s@),
                None => kani_scan(lv.take(i as int)).2 is None,
            },
        decreases lines@.len() - i,
    {
        proof {
            lemma_kani_scan_step(lv, i as int);
            assert(lv[i as int] == lines@[i as int]@);
            reveal_strlit("VERIFICATION:- SUCCESSFUL");
            reveal_strlit("VERIFICATION:- FAILED");
        }
        let line = &lines[i];
        let named = parse_kani_harness_name(line.as_str());
        match named {
            Some(s) => {
                cur = Some(s);
            },
            None => {},
        }
        let ghost prev_ok = ok@;
        let ghost prev_fail = fail@;
        if contains_str(line.as_str(), "VERIFICATION:- SUCCESSFUL") {
            match cur {
                Some(ref name) => {
                    let p = ident_to_path(name.as_str());
                    ok.push(p);
                    cur = None;
                    proof {
                        assert(path_views(ok@) =~= path_views(prev_ok).push(
                            split_on_pat(name@, sep_ident()),
                        ));
                    }
                },
                None => {},
            }
        } else if contains_str(line.as_str(), "VERIFICATION:- FAILED") {
            match cur {
                Some(ref name) => {
                    let p = ident_to_path(name.as_str());
                    fail.push(p);
                    cur = None;
                    proof {
                        assert(path_views(fail@) =~= path_views(prev_fail).push(
                            split_on_pat(name@, sep_ident()),
                        ));
                    }
                },
                None => {},
            }
        }
        i += 1;
    }
    proof {
        assert(lv.take(lv.len() as int) =~= lv);
    }
    CheckResult { status: Ok(()), ok, fail }
}

/// The harness name on a test-runner line after the given trailer: the
/// non-space run between `test check_` (with any spaces skipped) and a
/// ` ... ` marker followed by the verdict word.
pub open spec fn pbt_name(line: Seq<char>, trailer: Seq<char>) -> Option<Seq<char>> {
    match after_first(line, "test check_"@) {
        None => None,
        Some(a) => {
            let b = a.skip(crate::text::leading_count(a, ' '));
            let k = leading_nonspace_count(b);
            if k > 0 && starts_with_spec(b.skip(k), trailer) {
                Some(b.take(k))
            } else {
                None
            }
        },
    }
}

/// Parse a test-runner line: the name is returned when the line carries the
/// given trailer after it.
pub fn parse_pbt_name(line: &str, trailer: &str) -> (r: Option<String>)
    ensures
        match r {
            Some(s) => pbt_name(line@, trailer@) == Some(s@),
            None => pbt_name(line@, trailer@) is None,
        },
{
    proof {
        reveal_strlit("test check_");
    }
    match find_after(line, "test check_") {
        Some(a) => {
            let b = skip_spaces(a.as_str());
            let run = take_word_run_nonspace(&b);
            let k = run.as_str().unicode_len();
            let n = b.as_str().unicode_len();
            proof {
                lemma_leading_nonspace_count(b@);
            }
            if k == 0 {
                return None;
            }
            let rest = b.as_str().substring_char(k, n);
            proof {
                assert(rest@ =~= b@.skip(k as int));
            }
            if starts_with_str(rest, trailer) {
                Some(run)
            } else {
                None
            }
        },
        None => None,
    }
}

/// The non-space run at the start of an owned line.
fn take_word_run_nonspace(s: &String) -> (r: String)
    ensures
        r@ == s@.take(leading_nonspace_count(s@)),
{
    take_nonspace_run(s.as_str())
}

/// The test-runner scan state: ok and fail verdicts so far.
pub open spec fn pbt_step(
    st: (Seq<Seq<Seq<char>>>, Seq<Seq<Seq<char>>>),
    line: Seq<char>,
) -> (Seq<Seq<Seq<char>>>, Seq<Seq<Seq<char>>>) {
    let st1 = match pbt_name(line, " ... ok"@) {
        Some(nm) => (st.0.push(split_on_pat(nm, sep_ident())), st.1),
        None => st,
    };
    match pbt_name(line, " ... FAILED"@) {
        Some(nm) => (st1.0, st1.1.push(split_on_pat(nm, sep_ident()))),
        None => st1,
    }
}

/// Fold [`pbt_step`] over the lines.
pub open spec fn pbt_scan(lines: Seq<Seq<char>>) -> (Seq<Seq<Seq<char>>>, Seq<Seq<Seq<char>>>)
    decreases lines.len(),
{
    if lines.len() == 0 {
        (Seq::empty(), Seq::empty())
    } else {
        pbt_step(pbt_scan(lines.drop_last()), lines.last())
    }
}

proof fn lemma_pbt_scan_step(lv: Seq<Seq<char>>, i: int)
    requires
        0 <= i < lv.len(),
    ensures
        pbt_scan(lv.take(i + 1)) == pbt_step(pbt_scan(lv.take(i)), lv[i]),
{
    assert(lv.take(i + 1).drop_last() =~= lv.take(i));
    assert(lv.take(i + 1).last() == lv[i]);
}

/// Read the property tester's output: `test check_<name> ... ok` records a
/// pass and `test check_<name> ... FAILED` records a counterexample.
pub fn analyze_pbt_lines(lines: &Vec<String>) -> (r: CheckResult)
    ensures
        r.status is Ok,
        path_views(r.ok@) == pbt_scan(line_views(lines@)).0,
        path_views(r.fail@) == pbt_scan(line_views(lines@)).1,
{
    let ghost lv = line_views(lines@);
    let mut ok: Vec<Path> = Vec::new();
    let mut fail: Vec<Path> = Vec::new();
    let mut i: usize = 0;
    proof {
        reveal_strlit(" ... ok");
        reveal_strlit(" ... FAILED");
        assert(lv.take(0) =~= Seq::<Seq<char>>::empty());
        assert(path_views(ok@) =~= pbt_scan(lv.take(0)).0);
        assert(path_views(fail@) =~= pbt_scan(lv.take(0)).1);
    }
    while i < lines.len()
        invariant
            i <= lines@.len(),
            lv == line_views(lines@),
            lv.len() == lines@.len(),
            path_views(ok@) == pbt_scan(lv.take(i as int)).0,
            path_views(fail@) == pbt_scan(lv.take(i as int)).1,
        decreases lines@.len() - i,
    {
        proof {
            lemma_pbt_scan_step(lv, i as int);
            assert(lv[i as int] == lines@[i as int]@);
            reveal_strlit(" ... ok");
            reveal_strlit(" ... FAILED");
        }
        let line = &lines[i];
        let ghost prev_ok = ok@;
        match parse_pbt_name(line.as_str(), " ... ok") {
            Some(name) => {
                let p = ident_to_path(name.as_str());
                ok.push(p);
                proof {
                    assert(path_views(ok@) =~= path_views(prev_ok).push(
                        split_on_pat(name@, sep_ident()),
                    ));
                }
            },
            None => {},
        }
        let ghost prev_fail = fail@;
        match parse_pbt_name(line.as_str(), " ... FAILED") {
            Some(name) => {
                let p = ident_to_path(name.as_str());
                fail.push(p);
                proof {
                    assert(path_views(fail@) =~= path_views(prev_fail).push(
                        split_on_pat(name@, sep_ident()),
                    ));
                }
            },
            None => {},
        }
        i += 1;
    }
    proof {
        assert(lv.take(lv.len() as int) =~= lv);
    }
    CheckResult { status: Ok(()), ok, fail }
}

/// The exported function name on an IR `define` line: the text between the
/// first `@` and the first `(`.  A line without that shape names nothing.
pub open spec fn alive2_define_name(line: Seq<char>) -> Option<Seq<char>> {
    match (first_index(line, '@'), first_index(line, '(')) {
        (Some(a), Some(p)) => {
            if a + 1 <= p {
                Some(line.subrange(a + 1, p))
            } else {
                None
            }
        },
        _ => None,
    }
}

/// Parse the function name off an IR `define` line.
pub fn parse_alive2_define_name(line: &str) -> (r: Option<String>)
    ensures
        match r {
            Some(s) => alive2_define_name(line@) == Some(s@),
            None => alive2_define_name(line@) is None,
        },
{
    let a = find_char(line, '@');
    let p = find_char(line, '(');
    proof {
        lemma_first_index_characterizes(line@, '@');
        lemma_first_index_characterizes(line@, '(');
    }
    match (a, p) {
        (Some(a), Some(p)) => {
            if a < p {
                let nm = line.substring_char(a + 1, p).to_owned();
                proof {
                    assert(nm@ =~= line@.subrange(a + 1, p as int));
                }
                Some(nm)
            } else {
                proof {
                    assert(!(a + 1 <= p));
                }
                None
            }
        },
        _ => None,
    }
}

/// The IR-checker scan state: verified functions so far and the function
/// currently under analysis.
pub open spec fn alive2_step(
    st: (Seq<Seq<Seq<char>>>, Option<Seq<char>>),
    line: Seq<char>,
) -> (Seq<Seq<Seq<char>>>, Option<Seq<char>>) {
    if starts_with_spec(line, "define"@) {
        if st.1 is None {
            (st.0, alive2_define_name(line))
        } else {
            st
        }
    } else if starts_with_spec(line, "Transformation seems to be correct!"@) {
        if st.1 is Some {
            (st.0.push(split_on_pat(st.1->0, sep_ident())), None)
        } else {
            st
        }
    } else if starts_with_spec(line, "ERROR"@) {
        (st.0, None)
    } else {
        st
    }
}

/// Fold [`alive2_step`] over the lines.
pub open spec fn alive2_scan(lines: Seq<Seq<char>>) -> (Seq<Seq<Seq<char>>>, Option<Seq<char>>)
    decreases lines.len(),
{
    if lines.len() == 0 {
        (Seq::empty(), None)
    } else {
        alive2_step(alive2_scan(lines.drop_last()), lines.last())
    }
}

proof fn lemma_alive2_scan_step(lv: Seq<Seq<char>>, i: int)
    requires
        0 <= i < lv.len(),
    ensures
        alive2_scan(lv.take(i + 1)) == alive2_step(alive2_scan(lv.take(i)), lv[i]),
{
    assert(lv.take(i + 1).drop_last() =~= lv.take(i));
    assert(lv.take(i + 1).last() == lv[i]);
}

/// Read the IR checker's output: a `define` line names the function under
/// analysis, `Transformation seems to be correct!` accepts it, and an
/// `ERROR` line abandons it.  An `ERROR` is only inconclusive here, so the
/// fail list stays empty.
pub fn analyze_alive2_lines(lines: &Vec<String>) -> (r: CheckResult)
    ensures
        r.status is Ok,
        path_views(r.ok@) == alive2_scan(line_views(lines@)).0,
        r.fail@.len() == 0,
{
    let ghost lv = line_views(lines@);
    let mut ok: Vec<Path> = Vec::new();
    let mut cur: Option<String> = None;
    let mut i: usize = 0;
    proof {
        assert(lv.take(0) =~= Seq::<Seq<char>>::empty());
        assert(path_views(ok@) =~= alive2_scan(lv.take(0)).0);
    }
    while i < lines.len()
        invariant
            i <= lines@.len(),
            lv == line_views(lines@),
            lv.len() == lines@.len(),
            path_views(ok@) == alive2_scan(lv.take(i as int)).0,
            match cur {
                Some(ref s) => alive2_scan(lv.take(i as int)).1 == Some(s@),
                None => alive2_scan(lv.take(i as int)).1 is None,
            },
        decreases lines@.len() - i,
    {
        proof {
            lemma_alive2_scan_step(lv, i as int);
            assert(lv[i as int] == lines@[i as int]@);
            reveal_strlit("define");
            reveal_strlit("Transformation seems to be correct!");
            reveal_strlit("ERROR");
        }
        let line = &lines[i];
        if starts_with_str(line.as_str(), "define") {
            if cur.is_none() {
                cur = parse_alive2_define_name(line.as_str());
            }
        } else if starts_with_str(line.as_str(), "Transformation seems to be correct!") {
            let ghost prev_ok = ok@;
            match cur {
                Some(ref name) => {
                    let p = ident_to_path(name.as_str());
                    ok.push(p);
                    cur = None;
                    proof {
                        assert(path_views(ok@) =~= path_views(prev_ok).push(
                            split_on_pat(name@, sep_ident()),
                        ));
                    }
                },
                None => {},
            }
        } else if starts_with_str(line.as_str(), "ERROR") {
            cur = None;
        }
        i += 1;
    }
    proof {
        assert(lv.take(lv.len() as int) =~= lv);
    }
    CheckResult { status: Ok(()), ok, fail: Vec::new() }
}

/// The mismatched name on a fuzzer line: the non-space run after
/// `MISMATCH:` with any spaces skipped, when non-empty.
pub open spec fn df_name(line: Seq<char>) -> Option<Seq<char>> {
    match after_first(line, "MISMATCH:"@) {
        None => None,
        Some(a) => {
            let b = a.skip(crate::text::leading_count(a, ' '));
            let k = leading_nonspace_count(b);
            if k > 0 {
                Some(b.take(k))
            } else {
                None
            }
        },
    }
}

/// Parse the mismatched name off one fuzzer line.
pub fn parse_df_name(line: &str) -> (r: Option<String>)
    ensures
        match r {
            Some(s) => df_name(line@) == Some(s@),
            None => df_name(line@) is None,
        },
{
    proof {
        reveal_strlit("MISMATCH:");
    }
    match find_after(line, "MISMATCH:") {
        Some(a) => {
            let b = skip_spaces(a.as_str());
            let run = take_nonspace_run(b.as_str());
            proof {
                lemma_leading_nonspace_count(b@);
            }
            if run.as_str().unicode_len() == 0 {
                None
            } else {
                Some(run)
            }
        },
        None => None,
    }
}

/// The first position in `names` whose `::`-rendered form equals `nm`.
pub open spec fn first_render_pos(names: Seq<Seq<Seq<char>>>, nm: Seq<char>) -> Option<int>
    decreases names.len(),
{
    if names.len() == 0 {
        None
    } else if crate::path::join_with(names[0], crate::path::sep_path()) == nm {
        Some(0int)
    } else {
        match first_render_pos(names.drop_first(), nm) {
            None => None,
            Some(i) => Some(i + 1),
        }
    }
}

pub proof fn lemma_first_render_pos(names: Seq<Seq<Seq<char>>>, nm: Seq<char>)
    ensures
        match first_render_pos(names, nm) {
            None => forall|j: int|
                0 <= j < names.len() ==> crate::path::join_with(
                    #[trigger] names[j],
                    crate::path::sep_path(),
                ) != nm,
            Some(i) => 0 <= i < names.len() && crate::path::join_with(
                names[i],
                crate::path::sep_path(),
            ) == nm && forall|j: int|
                0 <= j < i ==> crate::path::join_with(
                    #[trigger] names[j],
                    crate::path::sep_path(),
                ) != nm,
        },
    decreases names.len(),
{
    if names.len() == 0 {
    } else if crate::path::join_with(names[0], crate::path::sep_path()) == nm {
    } else {
        lemma_first_render_pos(names.drop_first(), nm);
        let t = names.drop_first();
        assert forall|j: int| 1 <= j < names.len() implies names[j] == t[j - 1] by {}
    }
}

/// Find the first path whose `::`-rendered form equals `name`.
pub fn find_render_pos(ps: &Vec<Path>, name: &str) -> (r: Option<usize>)
    ensures
        match r {
            Some(p) => first_render_pos(path_views(ps@), name@) == Some(p as int),
            None => first_render_pos(path_views(ps@), name@) is None,
        },
{
    let mut pos: usize = 0;
    while pos < ps.len()
        invariant
            pos <= ps@.len(),
            forall|q: int|
                0 <= q < pos ==> crate::path::join_with(
                    #[trigger] path_views(ps@)[q],
                    crate::path::sep_path(),
                ) != name@,
        decreases ps@.len() - pos,
    {
        let rendered = ps[pos].to_string();
        if crate::text::str_eq(rendered.as_str(), name) {
            proof {
                lemma_first_render_pos(path_views(ps@), name@);
                assert(crate::path::join_with(path_views(ps@)[pos as int],
                    crate::path::sep_path()) == name@);
                let f = first_render_pos(path_views(ps@), name@);
                if f is None {
                    assert(false);
                }
                if f is Some && f.unwrap() != pos {
                    if f.unwrap() < pos {
                        assert(crate::path::join_with(path_views(ps@)[f.unwrap()],
                            crate::path::sep_path()) != name@);
                    } else {
                        assert(crate::path::join_with(path_views(ps@)[pos as int],
                            crate::path::sep_path()) != name@);
                    }
                }
            }
            return Some(pos);
        }
        proof {
            assert(crate::path::join_with(path_views(ps@)[pos as int], crate::path::sep_path())
                != name@);
        }
        pos += 1;
    }
    proof {
        lemma_first_render_pos(path_views(ps@), name@);
        if first_render_pos(path_views(ps@), name@) is Some {
            let w = first_render_pos(path_views(ps@), name@).unwrap();
            assert(crate::path::join_with(path_views(ps@)[w], crate::path::sep_path()) != name@);
        }
    }
    None
}

/// The fuzzer scan state: the functions still considered ok, and those
/// refuted by a mismatch line.
pub open spec fn df_step(
    st: (Seq<Seq<Seq<char>>>, Seq<Seq<Seq<char>>>),
    line: Seq<char>,
) -> (Seq<Seq<Seq<char>>>, Seq<Seq<Seq<char>>>) {
    match df_name(line) {
        None => st,
        Some(nm) => match first_render_pos(st.0, nm) {
            None => st,
            Some(j) => (st.0.remove(j), st.1.push(crate::path::split_path(nm))),
        },
    }
}

/// Fold [`df_step`] over the lines, starting from the checked functions.
pub open spec fn df_scan(init: Seq<Seq<Seq<char>>>, lines: Seq<Seq<char>>) -> (
    Seq<Seq<Seq<char>>>,
    Seq<Seq<Seq<char>>>,
)
    decreases lines.len(),
{
    if lines.len() == 0 {
        (init, Seq::empty())
    } else {
        df_step(df_scan(init, lines.drop_last()), lines.last())
    }
}

proof fn lemma_df_scan_step(init: Seq<Seq<Seq<char>>>, lv: Seq<Seq<char>>, i: int)
    requires
        0 <= i < lv.len(),
    ensures
        df_scan(init, lv.take(i + 1)) == df_step(df_scan(init, lv.take(i)), lv[i]),
{
    assert(lv.take(i + 1).drop_last() =~= lv.take(i));
    assert(lv.take(i + 1).last() == lv[i]);
}

/// Read the fuzzer's mismatch log.  Every checked function starts in the ok
/// list; each `MISMATCH: <name>` line moves the first function rendering to
/// that name over to the fail list.
pub fn analyze_df_lines(functions: &Vec<Path>, lines: &Vec<String>) -> (r: CheckResult)
    ensures
        r.status is Ok,
        path_views(r.ok@) == df_scan(path_views(functions@), line_views(lines@)).0,
        path_views(r.fail@) == df_scan(path_views(functions@), line_views(lines@)).1,
{
    let ghost lv = line_views(lines@);
    let ghost init = path_views(functions@);
    let mut ok: Vec<Path> = Vec::new();
    let mut j: usize = 0;
    while j < functions.len()
        invariant
            j <= functions@.len(),
            ok@.len() == j,
            forall|k: int| 0 <= k < j ==> (#[trigger] ok@[k])@ == functions@[k]@,
        decreases functions@.len() - j,
    {
        ok.push(functions[j].duplicate());
        j += 1;
    }
    proof {
        assert(path_views(ok@) =~= init);
    }
    let mut fail: Vec<Path> = Vec::new();
    let mut i: usize = 0;
    proof {
        assert(lv.take(0) =~= Seq::<Seq<char>>::empty());
        assert(path_views(fail@) =~= df_scan(init, lv.take(0)).1);
    }
    while i < lines.len()
        invariant
            i <= lines@.len(),
            lv == line_views(lines@),
            lv.len() == lines@.len(),
            init == path_views(functions@),
            path_views(ok@) == df_scan(init, lv.take(i as int)).0,
            path_views(fail@) == df_scan(init, lv.take(i as int)).1,
        decreases lines@.len() - i,
    {
        proof {
            lemma_df_scan_step(init, lv, i as int);
            assert(lv[i as int] == lines@[i as int]@);
        }
        let line = &lines[i];
        match parse_df_name(line.as_str()) {
            Some(name) => {
                let found = find_render_pos(&ok, name.as_str());
                match found {
                    Some(p) => {
                        proof {
                            lemma_first_render_pos(path_views(ok@), name@);
                            assert(p < ok@.len());
                        }
                        let ghost prev_ok = path_views(ok@);
                        let ghost prev_fail = path_views(fail@);
                        ok.remove(p);
                        fail.push(crate::path::Path::from_str(name.as_str()));
                        proof {
                            assert(path_views(ok@) =~= prev_ok.remove(p as int));
                            assert(path_views(fail@) =~= prev_fail.push(
                                crate::path::split_path(name@),
                            ));
                        }
                    },
                    None => {},
                }
            },
            None => {},
        }
        i += 1;
    }
    proof {
        assert(lv.take(lv.len() as int) =~= lv);
    }
    CheckResult { status: Ok(()), ok, fail }
}

} // verus!
