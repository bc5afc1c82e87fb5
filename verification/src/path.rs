//! Fully qualified symbol paths.
//!
//! A path is an ordered sequence of identifier segments.  It renders with
//! `::` between segments, flattens to a single identifier with `___`, and
//! parses back from the `::` form.

use vstd::prelude::*;

verus! {

use vstd::string::StrSliceExecFns;
use vstd::string::StringExecFns;

/// The `::` separator as a sequence of characters.
pub open spec fn sep_path() -> Seq<char> {
    seq![':', ':']
}

/// The `___` separator used for flattened identifiers.
pub open spec fn sep_ident() -> Seq<char> {
    seq!['_', '_', '_']
}

/// Join a sequence of segments with a separator.
pub open spec fn join_with(segs: Seq<Seq<char>>, sep: Seq<char>) -> Seq<char>
    decreases segs.len(),
{
    if segs.len() == 0 {
        Seq::empty()
    } else if segs.len() == 1 {
        segs[0]
    } else {
        segs[0] + sep + join_with(segs.drop_first(), sep)
    }
}

/// Whether a `::` separator starts at index `i` of `s`.
pub open spec fn sep_at(s: Seq<char>, i: int) -> bool {
    0 <= i && i + 2 <= s.len() && s[i] == ':' && s[i + 1] == ':'
}

/// Index of the first `::` separator in `s`, if any.
pub open spec fn first_sep(s: Seq<char>) -> Option<int>
    decreases s.len(),
{
    if s.len() < 2 {
        None
    } else if s[0] == ':' && s[1] == ':' {
        Some(0int)
    } else {
        match first_sep(s.drop_first()) {
            None => None,
            Some(i) => Some(i + 1),
        }
    }
}

/// Split `s` on every `::` occurrence, scanning left to right.
pub open spec fn split_path(s: Seq<char>) -> Seq<Seq<char>>
    decreases s.len(),
{
    match first_sep(s) {
        None => seq![s],
        Some(i) => {
            if 0 <= i && i + 2 <= s.len() {
                seq![s.take(i)] + split_path(s.skip(i + 2))
            } else {
                seq![s]
            }
        },
    }
}

/// `first_sep` finds exactly the least index at which a separator starts.
pub proof fn lemma_first_sep_characterizes(s: Seq<char>)
    ensures
        match first_sep(s) {
            None => forall|j: int| !sep_at(s, j),
            Some(i) => sep_at(s, i) && (forall|j: int| 0 <= j < i ==> !sep_at(s, j)),
        },
    decreases s.len(),
{
    if s.len() < 2 {
    } else if s[0] == ':' && s[1] == ':' {
    } else {
        lemma_first_sep_characterizes(s.drop_first());
        let t = s.drop_first();
        assert forall|j: int| 0 <= j && sep_at(s, j) implies sep_at(t, j - 1) by {
            assert(t[j - 1] == s[j]);
            assert(j + 1 < s.len() ==> t[j] == s[j + 1]);
        }
        match first_sep(t) {
            None => {
                assert forall|j: int| !sep_at(s, j) by {
                    if sep_at(s, j) {
                        assert(j != 0);
                        assert(sep_at(t, j - 1));
                    }
                }
            },
            Some(i) => {
                assert(s[i + 1] == t[i]);
                assert(i + 2 < s.len() ==> s[i + 2] == t[i + 1]);
                assert(sep_at(s, i + 1));
                assert forall|j: int| 0 <= j < i + 1 implies !sep_at(s, j) by {
                    if j != 0 && sep_at(s, j) {
                        assert(sep_at(t, j - 1));
                    }
                }
            },
        }
    }
}

/// When no separator starts below `m` and one starts at `m`, the first
/// separator is exactly at `m`.
pub proof fn lemma_first_sep_is(s: Seq<char>, m: int)
    requires
        sep_at(s, m),
        forall|j: int| 0 <= j < m ==> !sep_at(s, j),
    ensures
        first_sep(s) == Some(m),
{
    lemma_first_sep_characterizes(s);
    match first_sep(s) {
        None => {
            assert(sep_at(s, m));
        },
        Some(i) => {
            if i < m {
                assert(!sep_at(s, i));
            }
            if m < i {
                assert(!sep_at(s, m));
            }
        },
    }
}

/// When no separator occurs at all, splitting yields the single segment `s`.
pub proof fn lemma_split_whole(s: Seq<char>)
    requires
        forall|j: int| !sep_at(s, j),
    ensures
        split_path(s) == seq![s],
{
    lemma_first_sep_characterizes(s);
    match first_sep(s) {
        None => {},
        Some(i) => {
            assert(!sep_at(s, i));
        },
    }
}

/// Splitting then joining with `::` gives the original string back.
pub proof fn lemma_join_split(s: Seq<char>)
    ensures
        join_with(split_path(s), sep_path()) =~= s,
    decreases s.len(),
{
    lemma_first_sep_characterizes(s);
    match first_sep(s) {
        None => {},
        Some(i) => {
            lemma_join_split(s.skip(i + 2));
            let rest = split_path(s.skip(i + 2));
            assert(rest.len() >= 1);
            let whole = seq![s.take(i)] + rest;
            assert(whole.drop_first() =~= rest);
            assert(join_with(whole, sep_path()) =~= s.take(i) + sep_path() + s.skip(i + 2));
            assert(s.take(i) + sep_path() + s.skip(i + 2) =~= s) by {
                assert(s[i] == ':' && s[i + 1] == ':');
            }
        },
    }
}

/// Fully qualified path of a symbol, e.g. `std::vec::Vec`.
pub struct Path(pub Vec<String>);

impl Path {
    /// The mathematical value of a path: the views of its segments.
    pub open spec fn view(&self) -> Seq<Seq<char>> {
        self.0@.map_values(|s: String| s@)
    }

    /// Create an empty path.
    pub fn empty() -> (r: Path)
        ensures
            r@ =~= Seq::<Seq<char>>::empty(),
    {
        Path(Vec::new())
    }

    /// Convert to the string representation with `::` separators.
    pub fn to_string(&self) -> (r: String)
        ensures
            r@ == join_with(self@, sep_path()),
    {
        proof {
            reveal_strlit("::");
            assert("::"@ =~= sep_path());
        }
        join_segments(&self.0, "::")
    }

    /// Convert to a flattened identifier with `___` separators.
    pub fn to_ident(&self) -> (r: String)
        ensures
            r@ == join_with(self@, sep_ident()),
    {
        proof {
            reveal_strlit("___");
            assert("___"@ =~= sep_ident());
        }
        join_segments(&self.0, "___")
    }

    /// Get the last segment of the path.
    pub fn last(&self) -> (r: Option<&String>)
        ensures
            match r {
                Some(s) => self@.len() > 0 && s@ == self@.last(),
                None => self@.len() == 0,
            },
    {
        self.0.last()
    }

    /// Get a new path holding all but the last segment.
    pub fn parent(&self) -> (r: Option<Path>)
        ensures
            match r {
                Some(p) => self@.len() > 0 && p@ =~= self@.drop_last(),
                None => self@.len() == 0,
            },
    {
        if self.0.len() == 0 {
            None
        } else {
            let mut parent_segments = clone_segments(&self.0);
            parent_segments.pop();
            assert(parent_segments@.map_values(|s: String| s@) =~= self@.drop_last());
            Some(Path(parent_segments))
        }
    }

    /// Parse from a string representation with `::` separators.
    pub fn from_str(s: &str) -> (r: Path)
        ensures
            r@ == split_path(s@),
    {
        Path(split_segments(s))
    }

    /// Parse from a string representation with `::` separators.
    pub fn from_string(s: &str) -> (r: Path)
        ensures
            r@ == split_path(s@),
    {
        Path::from_str(s)
    }

    /// Append one segment to this path.
    pub fn join(self, seg: String) -> (r: Path)
        ensures
            r@ =~= self@.push(seg@),
    {
        let Path(mut segments) = self;
        segments.push(seg);
        Path(segments)
    }

    /// An explicit deep copy.
    pub fn duplicate(&self) -> (r: Path)
        ensures
            r@ =~= self@,
    {
        Path(clone_segments(&self.0))
    }

    /// Whether two paths hold the same segments.
    pub fn same_as(&self, other: &Path) -> (r: bool)
        ensures
            r == (self@ =~= other@),
    {
        segments_eq(&self.0, &other.0)
    }
}

/// Deep copy of a segment vector.
pub fn clone_segments(v: &Vec<String>) -> (r: Vec<String>)
    ensures
        r@.map_values(|s: String| s@) =~= v@.map_values(|s: String| s@),
{
    let mut r: Vec<String> = Vec::new();
    let mut i: usize = 0;
    while i < v.len()
        invariant
            i <= v.len(),
            r@.len() == i,
            forall|j: int| 0 <= j < i ==> r@[j]@ == v@[j]@,
        decreases v.len() - i,
    {
        r.push(v[i].clone());
        i += 1;
    }
    r
}

/// Whether two segment vectors hold the same strings.
pub fn segments_eq(a: &Vec<String>, b: &Vec<String>) -> (r: bool)
    ensures
        r == (a@.map_values(|s: String| s@) =~= b@.map_values(|s: String| s@)),
{
    let ghost av = a@.map_values(|s: String| s@);
    let ghost bv = b@.map_values(|s: String| s@);
    if a.len() != b.len() {
        return false;
    }
    let mut i: usize = 0;
    while i < a.len()
        invariant
            i <= a.len(),
            a@.len() == b@.len(),
            av == a@.map_values(|s: String| s@),
            bv == b@.map_values(|s: String| s@),
            forall|j: int| 0 <= j < i ==> av[j] == bv[j],
        decreases a.len() - i,
    {
        if !(a[i] == b[i]) {
            assert(av[i as int] != bv[i as int]);
            return false;
        }
        i += 1;
    }
    assert(av =~= bv);
    true
}

/// Join the segments of `v` with the separator `sep`.
pub fn join_segments(v: &Vec<String>, sep: &str) -> (r: String)
    ensures
        r@ == join_with(v@.map_values(|s: String| s@), sep@),
{
    let ghost segs = v@.map_values(|s: String| s@);
    let mut r = String::new();
    if v.len() == 0 {
        return r;
    }
    r.append(v[0].as_str());
    let mut i: usize = 1;
    while i < v.len()
        invariant
            1 <= i <= v.len(),
            segs == v@.map_values(|s: String| s@),
            segs.len() == v@.len(),
            r@ == join_with(segs.take(i as int), sep@),
        decreases v.len() - i,
    {
        proof {
            lemma_join_snoc(segs.take(i as int + 1), sep@);
            assert(segs.take(i as int + 1).drop_last() =~= segs.take(i as int));
        }
        r.append(sep);
        r.append(v[i].as_str());
        i += 1;
    }
    proof {
        assert(segs.take(v@.len() as int) =~= segs);
    }
    r
}

/// Joining a non-singleton sequence equals joining all but the last segment,
/// then the separator, then the last segment.
pub proof fn lemma_join_snoc(segs: Seq<Seq<char>>, sep: Seq<char>)
    requires
        segs.len() >= 2,
    ensures
        join_with(segs, sep) =~= join_with(segs.drop_last(), sep) + sep + segs.last(),
    decreases segs.len(),
{
    if segs.len() == 2 {
    } else {
        lemma_join_snoc(segs.drop_first(), sep);
        assert(segs.drop_first().drop_last() =~= segs.drop_last().drop_first());
        assert(join_with(segs, sep) =~= segs[0] + sep + join_with(segs.drop_first(), sep));
    }
}

/// Split `s` on every `::`, returning the segments as owned strings.
pub fn split_segments(s: &str) -> (r: Vec<String>)
    ensures
        r@.map_values(|x: String| x@) == split_path(s@),
{
    let n = s.unicode_len();
    let mut segs: Vec<String> = Vec::new();
    let mut start: usize = 0;
    let mut i: usize = 0;
    proof {
        assert(s@.skip(0) =~= s@);
        assert(segs@.map_values(|x: String| x@) + split_path(s@) =~= split_path(s@));
    }
    while i < n
        invariant
            start <= i <= n,
            n == s@.len(),
            forall|j: int| start <= j < i ==> !sep_at(s@, j),
            segs@.map_values(|x: String| x@) + split_path(s@.skip(start as int)) =~= split_path(
                s@,
            ),
        decreases n - i,
    {
        if i + 1 < n && s.get_char(i) == ':' && s.get_char(i + 1) == ':' {
            let seg = s.substring_char(start, i).to_owned();
            proof {
                let t = s@.skip(start as int);
                let m = i - start;
                assert forall|j: int| 0 <= j < m implies !sep_at(t, j) by {
                    assert(t[j] == s@[start + j]);
                    assert(j + 1 < t.len() ==> t[j + 1] == s@[start + j + 1]);
                    assert(!sep_at(s@, start + j));
                }
                assert(t[m] == s@[i as int] && t[m + 1] == s@[i + 1]);
                assert(sep_at(t, m));
                lemma_first_sep_is(t, m);
                assert(t.take(m) =~= s@.subrange(start as int, i as int));
                assert(t.skip(m + 2) =~= s@.skip(i + 2));
                assert(split_path(t) =~= seq![s@.subrange(start as int, i as int)] + split_path(
                    s@.skip(i + 2),
                ));
            }
            segs.push(seg);
            proof {
                assert(segs@.map_values(|x: String| x@) + split_path(s@.skip(i + 2)) =~= split_path(
                    s@,
                ));
            }
            start = i + 2;
            i = i + 2;
        } else {
            proof {
                if sep_at(s@, i as int) {
                    assert(i + 2 <= n);
                    assert(s@[i as int] == ':' && s@[i + 1] == ':');
                }
            }
            i = i + 1;
        }
    }
    let last_seg = s.substring_char(start, n).to_owned();
    proof {
        let t = s@.skip(start as int);
        assert forall|j: int| !sep_at(t, j) by {
            if 0 <= j && j + 2 <= t.len() {
                assert(t[j] == s@[start + j]);
                assert(t[j + 1] == s@[start + j + 1]);
                assert(!sep_at(s@, start + j));
            }
        }
        lemma_split_whole(t);
        assert(t =~= s@.subrange(start as int, n as int));
    }
    segs.push(last_seg);
    proof {
        assert(segs@.map_values(|x: String| x@) =~= split_path(s@));
    }
    segs
}

/// Parsing a path from a string and rendering it again yields the original
/// string.
pub proof fn lemma_path_round_trip(s: Seq<char>)
    ensures
        join_with(split_path(s), sep_path()) =~= s,
{
    lemma_join_split(s);
}

} // verus!
