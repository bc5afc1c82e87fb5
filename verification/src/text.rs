//! Character-level utilities over strings.
//!
//! Rendered names, type arguments and tool output lines are all plain text;
//! these helpers scan and build such text with exact contracts over the
//! character sequences.

use vstd::prelude::*;

verus! {

use vstd::string::StrSliceExecFns;
use vstd::string::StringExecFns;

/// Index of the first occurrence of `c` in `s`, if any.
pub open spec fn first_index(s: Seq<char>, c: char) -> Option<int>
    decreases s.len(),
{
    if s.len() == 0 {
        None
    } else if s[0] == c {
        Some(0int)
    } else {
        match first_index(s.drop_first(), c) {
            None => None,
            Some(i) => Some(i + 1),
        }
    }
}

/// `first_index` finds exactly the least occurrence of `c`.
pub proof fn lemma_first_index_characterizes(s: Seq<char>, c: char)
    ensures
        match first_index(s, c) {
            None => forall|j: int| 0 <= j < s.len() ==> s[j] != c,
            Some(i) => 0 <= i < s.len() && s[i] == c && (forall|j: int| 0 <= j < i ==> s[j] != c),
        },
    decreases s.len(),
{
    if s.len() == 0 {
    } else if s[0] == c {
    } else {
        lemma_first_index_characterizes(s.drop_first(), c);
        let t = s.drop_first();
        assert forall|j: int| 1 <= j < s.len() implies s[j] == t[j - 1] by {}
    }
}

/// Whether `c` occurs anywhere in `s`.
pub open spec fn contains_char(s: Seq<char>, c: char) -> bool {
    exists|i: int| 0 <= i < s.len() && s[i] == c
}

/// Find the first occurrence of `c` in `s`.
pub fn find_char(s: &str, c: char) -> (r: Option<usize>)
    ensures
        match r {
            Some(i) => first_index(s@, c) == Some(i as int),
            None => first_index(s@, c) == None::<int>,
        },
{
    let n = s.unicode_len();
    let mut i: usize = 0;
    while i < n
        invariant
            i <= n,
            n == s@.len(),
            forall|j: int| 0 <= j < i ==> s@[j] != c,
        decreases n - i,
    {
        if s.get_char(i) == c {
            proof {
                lemma_first_index_characterizes(s@, c);
                let f = first_index(s@, c);
                if f is None {
                    assert(s@[i as int] == c);
                }
                if f is Some && f.unwrap() != i {
                    if f.unwrap() < i {
                        assert(s@[f.unwrap()] != c);
                    } else {
                        assert(s@[i as int] != c);
                    }
                }
            }
            return Some(i);
        }
        i += 1;
    }
    proof {
        lemma_first_index_characterizes(s@, c);
        if first_index(s@, c) is Some {
            let f = first_index(s@, c).unwrap();
            assert(s@[f] != c);
        }
    }
    None
}

/// Whether `c` occurs anywhere in `s`.
pub fn has_char(s: &str, c: char) -> (r: bool)
    ensures
        r == contains_char(s@, c),
{
    proof {
        lemma_first_index_characterizes(s@, c);
    }
    match find_char(s, c) {
        Some(_) => true,
        None => false,
    }
}

/// Split `s` on every occurrence of the character `c`.
pub open spec fn split_on_char(s: Seq<char>, c: char) -> Seq<Seq<char>>
    decreases s.len(),
{
    match first_index(s, c) {
        None => seq![s],
        Some(i) => {
            if 0 <= i < s.len() {
                seq![s.take(i)] + split_on_char(s.skip(i + 1), c)
            } else {
                seq![s]
            }
        },
    }
}

/// When no occurrence of `c` starts below `m` and `s[m] == c`, the first
/// occurrence is exactly at `m`.
pub proof fn lemma_first_index_is(s: Seq<char>, c: char, m: int)
    requires
        0 <= m < s.len(),
        s[m] == c,
        forall|j: int| 0 <= j < m ==> s[j] != c,
    ensures
        first_index(s, c) == Some(m),
{
    lemma_first_index_characterizes(s, c);
    match first_index(s, c) {
        None => {
            assert(s[m] == c);
        },
        Some(i) => {
            if i < m {
                assert(s[i] != c);
            }
            if m < i {
                assert(s[m] != c);
            }
        },
    }
}

/// Split `s` on every occurrence of `c`, returning owned segments.
pub fn split_char(s: &str, c: char) -> (r: Vec<String>)
    ensures
        r@.map_values(|x: String| x@) == split_on_char(s@, c),
{
    let n = s.unicode_len();
    let mut segs: Vec<String> = Vec::new();
    let mut start: usize = 0;
    let mut i: usize = 0;
    proof {
        assert(s@.skip(0) =~= s@);
        assert(segs@.map_values(|x: String| x@) + split_on_char(s@, c) =~= split_on_char(s@, c));
    }
    while i < n
        invariant
            start <= i <= n,
            n == s@.len(),
            forall|j: int| start <= j < i ==> s@[j] != c,
            segs@.map_values(|x: String| x@) + split_on_char(s@.skip(start as int), c)
                =~= split_on_char(s@, c),
        decreases n - i,
    {
        if s.get_char(i) == c {
            let seg = s.substring_char(start, i).to_owned();
            proof {
                let t = s@.skip(start as int);
                let m = i - start;
                assert forall|j: int| 0 <= j < m implies t[j] != c by {
                    assert(t[j] == s@[start + j]);
                }
                assert(t[m] == s@[i as int]);
                lemma_first_index_is(t, c, m);
                assert(t.take(m) =~= s@.subrange(start as int, i as int));
                assert(t.skip(m + 1) =~= s@.skip(i + 1));
            }
            segs.push(seg);
            proof {
                assert(segs@.map_values(|x: String| x@) + split_on_char(s@.skip(i + 1), c)
                    =~= split_on_char(s@, c));
            }
            start = i + 1;
            i = i + 1;
        } else {
            i = i + 1;
        }
    }
    let last_seg = s.substring_char(start, n).to_owned();
    proof {
        let t = s@.skip(start as int);
        assert forall|j: int| 0 <= j < t.len() implies t[j] != c by {
            assert(t[j] == s@[start + j]);
        }
        lemma_first_index_characterizes(t, c);
        if first_index(t, c) is Some {
            assert(t[first_index(t, c).unwrap()] == c);
        }
        assert(split_on_char(t, c) == seq![t]);
    }
    segs.push(last_seg);
    proof {
        assert(segs@.map_values(|x: String| x@) =~= split_on_char(s@, c));
    }
    segs
}

/// Number of copies of `c` at the start of `s`.
pub open spec fn leading_count(s: Seq<char>, c: char) -> int
    decreases s.len(),
{
    if s.len() == 0 || s[0] != c {
        0
    } else {
        1 + leading_count(s.drop_first(), c)
    }
}

pub proof fn lemma_leading_count(s: Seq<char>, c: char)
    ensures
        0 <= leading_count(s, c) <= s.len(),
        forall|j: int| 0 <= j < leading_count(s, c) ==> s[j] == c,
        leading_count(s, c) < s.len() ==> s[leading_count(s, c)] != c,
    decreases s.len(),
{
    if s.len() == 0 || s[0] != c {
    } else {
        lemma_leading_count(s.drop_first(), c);
        let t = s.drop_first();
        assert forall|j: int| 0 <= j < leading_count(s, c) implies s[j] == c by {
            if j > 0 {
                assert(t[j - 1] == c);
            }
        }
    }
}

/// Number of copies of `c` at the end of `s`.
pub open spec fn trailing_count(s: Seq<char>, c: char) -> int {
    leading_count(s.reverse(), c)
}

/// Drop every trailing copy of `c` from `s`.
pub open spec fn trim_end_spec(s: Seq<char>, c: char) -> Seq<char> {
    s.take(s.len() - trailing_count(s, c))
}

/// Drop every trailing copy of `c` from `s`.
pub fn trim_end_char(s: &str, c: char) -> (r: String)
    ensures
        r@ == trim_end_spec(s@, c),
{
    let n = s.unicode_len();
    let mut e: usize = n;
    proof {
        lemma_leading_count(s@.reverse(), c);
    }
    while e > 0 && s.get_char(e - 1) == c
        invariant
            e <= n,
            n == s@.len(),
            forall|j: int| e <= j < n ==> s@[j] == c,
            n - e <= trailing_count(s@, c),
        decreases e,
    {
        proof {
            let rev = s@.reverse();
            let k = n - e;
            if leading_count(rev, c) <= k {
                lemma_leading_count(rev, c);
                if leading_count(rev, c) < rev.len() {
                    assert(rev[leading_count(rev, c)] == s@[n - 1 - leading_count(rev, c)]);
                }
            }
        }
        e = e - 1;
    }
    proof {
        let rev = s@.reverse();
        lemma_leading_count(rev, c);
        if e > 0 {
            assert(s@[e - 1] != c);
            if trailing_count(s@, c) > n - e {
                assert(rev[n - e] == s@[e - 1]);
            }
        } else {
            assert(trailing_count(s@, c) <= n);
        }
        assert(n - e == trailing_count(s@, c));
    }
    s.substring_char(0, e).to_owned()
}

/// Drop leading and trailing spaces from `s`.
pub open spec fn trim_spaces_spec(s: Seq<char>) -> Seq<char> {
    trim_end_spec(s.skip(leading_count(s, ' ')), ' ')
}

/// Drop leading and trailing spaces from `s`.
pub fn trim_spaces(s: &str) -> (r: String)
    ensures
        r@ == trim_spaces_spec(s@),
{
    let n = s.unicode_len();
    let mut b: usize = 0;
    proof {
        lemma_leading_count(s@, ' ');
    }
    while b < n && s.get_char(b) == ' '
        invariant
            b <= n,
            n == s@.len(),
            forall|j: int| 0 <= j < b ==> s@[j] == ' ',
            b <= leading_count(s@, ' '),
        decreases n - b,
    {
        proof {
            lemma_leading_count(s@, ' ');
            if leading_count(s@, ' ') <= b {
                assert(s@[leading_count(s@, ' ')] == ' ');
            }
        }
        b = b + 1;
    }
    proof {
        lemma_leading_count(s@, ' ');
        if b < n {
            assert(s@[b as int] != ' ');
            if leading_count(s@, ' ') > b {
                assert(s@[b as int] == ' ');
            }
        }
        assert(b == leading_count(s@, ' '));
    }
    let tail = s.substring_char(b, n);
    proof {
        assert(tail@ =~= s@.skip(b as int));
    }
    trim_end_char(tail, ' ')
}

/// Whether `s` begins with the prefix `p`.
pub open spec fn starts_with_spec(s: Seq<char>, p: Seq<char>) -> bool {
    p.len() <= s.len() && s.take(p.len() as int) == p
}

/// Whether `s` begins with the prefix `p`.
pub fn starts_with_str(s: &str, p: &str) -> (r: bool)
    ensures
        r == starts_with_spec(s@, p@),
{
    let n = s.unicode_len();
    let m = p.unicode_len();
    if m > n {
        assert(!starts_with_spec(s@, p@));
        return false;
    }
    let mut i: usize = 0;
    while i < m
        invariant
            i <= m,
            m <= n,
            n == s@.len(),
            m == p@.len(),
            forall|j: int| 0 <= j < i ==> s@[j] == p@[j],
        decreases m - i,
    {
        if s.get_char(i) != p.get_char(i) {
            assert(s@.take(p@.len() as int)[i as int] != p@[i as int]);
            return false;
        }
        i += 1;
    }
    assert(s@.take(p@.len() as int) =~= p@);
    true
}

/// Whether the two strings hold the same characters.
pub fn str_eq(a: &str, b: &str) -> (r: bool)
    ensures
        r == (a@ == b@),
{
    let n = a.unicode_len();
    let m = b.unicode_len();
    if n != m {
        return false;
    }
    let mut i: usize = 0;
    while i < n
        invariant
            i <= n,
            n == a@.len(),
            n == b@.len(),
            forall|j: int| 0 <= j < i ==> a@[j] == b@[j],
        decreases n - i,
    {
        if a.get_char(i) != b.get_char(i) {
            return false;
        }
        i += 1;
    }
    assert(a@ =~= b@);
    true
}

/// Index of the first position at which the pattern `p` occurs inside `s`.
pub open spec fn first_occurrence(s: Seq<char>, p: Seq<char>) -> Option<int>
    decreases s.len(),
{
    if s.len() < p.len() {
        None
    } else if s.take(p.len() as int) == p {
        Some(0int)
    } else if s.len() == 0 {
        None
    } else {
        match first_occurrence(s.drop_first(), p) {
            None => None,
            Some(i) => Some(i + 1),
        }
    }
}

/// Whether `p` occurs inside `s` starting at `i`.
pub open spec fn occurs_at(s: Seq<char>, p: Seq<char>, i: int) -> bool {
    0 <= i && i + p.len() <= s.len() && s.subrange(i, i + p.len() as int) == p
}

pub proof fn lemma_first_occurrence_characterizes(s: Seq<char>, p: Seq<char>)
    requires
        p.len() >= 1,
    ensures
        match first_occurrence(s, p) {
            None => forall|j: int| !occurs_at(s, p, j),
            Some(i) => occurs_at(s, p, i) && (forall|j: int| 0 <= j < i ==> !occurs_at(s, p, j)),
        },
    decreases s.len(),
{
    if s.len() < p.len() {
    } else if s.take(p.len() as int) == p {
        assert(s.subrange(0, p.len() as int) =~= s.take(p.len() as int));
    } else {
        lemma_first_occurrence_characterizes(s.drop_first(), p);
        let t = s.drop_first();
        assert forall|j: int| 1 <= j && occurs_at(s, p, j) implies occurs_at(t, p, j - 1) by {
            assert(t.subrange(j - 1, j - 1 + p.len() as int) =~= s.subrange(
                j,
                j + p.len() as int,
            ));
        }
        assert forall|j: int| 0 <= j && occurs_at(t, p, j) implies occurs_at(s, p, j + 1) by {
            assert(s.subrange(j + 1, j + 1 + p.len() as int) =~= t.subrange(
                j,
                j + p.len() as int,
            ));
        }
        if !occurs_at(s, p, 0) {
        } else {
            assert(s.subrange(0, p.len() as int) =~= s.take(p.len() as int));
        }
    }
}

/// Find the first occurrence of the pattern `p` inside `s`.
pub fn find_str(s: &str, p: &str) -> (r: Option<usize>)
    requires
        p@.len() >= 1,
    ensures
        match r {
            Some(i) => first_occurrence(s@, p@) == Some(i as int),
            None => first_occurrence(s@, p@) == None::<int>,
        },
{
    let n = s.unicode_len();
    let m = p.unicode_len();
    proof {
        lemma_first_occurrence_characterizes(s@, p@);
    }
    if m > n {
        proof {
            if first_occurrence(s@, p@) is Some {
                assert(occurs_at(s@, p@, first_occurrence(s@, p@).unwrap()));
            }
        }
        return None;
    }
    let mut i: usize = 0;
    while i <= n - m
        invariant
            m <= n,
            i + m <= n + 1,
            n == s@.len(),
            m == p@.len(),
            m >= 1,
            forall|j: int| 0 <= j < i ==> !occurs_at(s@, p@, j),
        decreases n - i,
    {
        let sub = s.substring_char(i, i + m);
        if str_eq(sub, p) {
            proof {
                assert(occurs_at(s@, p@, i as int));
                lemma_first_occurrence_characterizes(s@, p@);
                let f = first_occurrence(s@, p@);
                if f is None {
                    assert(occurs_at(s@, p@, i as int));
                }
                if f is Some && f.unwrap() != i {
                    if f.unwrap() < i {
                        assert(!occurs_at(s@, p@, f.unwrap()));
                    } else {
                        assert(!occurs_at(s@, p@, i as int));
                    }
                }
            }
            return Some(i);
        }
        proof {
            assert(s@.subrange(i as int, i + m) != p@);
        }
        i += 1;
    }
    proof {
        lemma_first_occurrence_characterizes(s@, p@);
        if first_occurrence(s@, p@) is Some {
            let f = first_occurrence(s@, p@).unwrap();
            assert(occurs_at(s@, p@, f));
            assert(!occurs_at(s@, p@, f));
        }
    }
    None
}

/// Whether the pattern `p` occurs anywhere inside `s`.
pub fn contains_str(s: &str, p: &str) -> (r: bool)
    requires
        p@.len() >= 1,
    ensures
        r == exists|j: int| occurs_at(s@, p@, j),
{
    proof {
        lemma_first_occurrence_characterizes(s@, p@);
    }
    match find_str(s, p) {
        Some(_) => {
            proof {
                let f = first_occurrence(s@, p@).unwrap();
                assert(occurs_at(s@, p@, f));
            }
            true
        },
        None => false,
    }
}

/// The decimal digit character for `d`.
pub open spec fn digit_char(d: int) -> char {
    if d == 0 {
        '0'
    } else if d == 1 {
        '1'
    } else if d == 2 {
        '2'
    } else if d == 3 {
        '3'
    } else if d == 4 {
        '4'
    } else if d == 5 {
        '5'
    } else if d == 6 {
        '6'
    } else if d == 7 {
        '7'
    } else if d == 8 {
        '8'
    } else {
        '9'
    }
}

/// Decimal rendering of a natural number.
pub open spec fn dec_spec(n: int) -> Seq<char>
    decreases n,
{
    if n < 0 {
        Seq::empty()
    } else if n < 10 {
        seq![digit_char(n)]
    } else {
        dec_spec(n / 10) + seq![digit_char(n % 10)]
    }
}

/// The string for one decimal digit.
fn digit_str(d: u64) -> (r: &'static str)
    requires
        d < 10,
    ensures
        r@ =~= seq![digit_char(d as int)],
{
    proof {
        reveal_strlit("0");
        reveal_strlit("1");
        reveal_strlit("2");
        reveal_strlit("3");
        reveal_strlit("4");
        reveal_strlit("5");
        reveal_strlit("6");
        reveal_strlit("7");
        reveal_strlit("8");
        reveal_strlit("9");
    }
    if d == 0 {
        "0"
    } else if d == 1 {
        "1"
    } else if d == 2 {
        "2"
    } else if d == 3 {
        "3"
    } else if d == 4 {
        "4"
    } else if d == 5 {
        "5"
    } else if d == 6 {
        "6"
    } else if d == 7 {
        "7"
    } else if d == 8 {
        "8"
    } else {
        "9"
    }
}

/// Render `n` in decimal.
pub fn u64_to_string(n: u64) -> (r: String)
    ensures
        r@ == dec_spec(n as int),
    decreases n,
{
    if n < 10 {
        digit_str(n).to_owned()
    } else {
        let mut r = u64_to_string(n / 10);
        r.append(digit_str(n % 10));
        r
    }
}

/// Render `n` in decimal.
pub fn u128_to_string(n: u128) -> (r: String)
    ensures
        r@ == dec_spec(n as int),
    decreases n,
{
    if n < 10 {
        digit_str(n as u64).to_owned()
    } else {
        let mut r = u128_to_string(n / 10);
        r.append(digit_str((n % 10) as u64));
        r
    }
}

/// Decimal rendering of a signed integer: a minus sign, then the digits of
/// the magnitude.
pub open spec fn int_code(i: int) -> Seq<char> {
    if i < 0 {
        seq!['-'] + dec_spec(-i)
    } else {
        dec_spec(i)
    }
}

/// Render a signed integer in decimal.
pub fn i128_to_string(n: i128) -> (r: String)
    ensures
        r@ == int_code(n as int),
{
    if n >= 0 {
        u128_to_string(n as u128)
    } else {
        let mag: u128 = ((-(n + 1)) as u128) + 1;
        proof {
            assert(mag == -(n as int));
        }
        let mut r = String::new();
        r.append("-");
        r.append(u128_to_string(mag).as_str());
        proof {
            reveal_strlit("-");
            assert("-"@ =~= seq!['-']);
            assert(r@ =~= seq!['-'] + dec_spec(-(n as int)));
        }
        r
    }
}

} // verus!
