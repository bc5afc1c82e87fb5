//! Generic and precise types.
//!
//! A type is either a precise path or a generic base path with type
//! arguments.  Rendering puts an angle-bracketed, comma-joined argument list
//! on the last path segment; parsing reads one level of angle brackets back.

use vstd::prelude::*;

verus! {

use crate::path::Path;
use crate::path::join_with;
use crate::path::sep_path;
use crate::path::clone_segments;
use crate::path::segments_eq;
use crate::text::contains_char;
use crate::text::first_index;
use crate::text::has_char;
use crate::text::find_char;
use crate::text::lemma_first_index_characterizes;
use crate::text::split_on_char;
use crate::text::split_char;
use crate::text::trim_end_spec;
use crate::text::trim_end_char;
use crate::text::trim_spaces_spec;
use crate::text::trim_spaces;
use vstd::string::StrSliceExecFns;
use vstd::string::StringExecFns;

broadcast use vstd::std_specs::vec::group_vec_axioms;

/// The mathematical value of a [`Type`]: segment views plus the argument
/// structure.
#[verifier::ext_equal]
pub enum TypeV {
    /// A precise type: its path segments.
    Precise(Seq<Seq<char>>),
    /// A generic type: base path segments and argument values.
    Generic(Seq<Seq<char>>, Seq<TypeV>),
}

/// Structural equality of type values.
pub open spec fn teq(a: TypeV, b: TypeV) -> bool
    decreases a,
{
    match (a, b) {
        (TypeV::Precise(p1), TypeV::Precise(p2)) => p1 == p2,
        (TypeV::Generic(p1, a1), TypeV::Generic(p2, a2)) => p1 == p2 && a1.len() == a2.len()
            && (forall|i: int| 0 <= i < a1.len() ==> teq(#[trigger] a1[i], a2[i])),
        _ => false,
    }
}

/// Structural equality of type values coincides with equality.
pub proof fn lemma_teq_is_eq(a: TypeV, b: TypeV)
    ensures
        teq(a, b) <==> a == b,
    decreases a,
{
    match (a, b) {
        (TypeV::Generic(p1, a1), TypeV::Generic(p2, a2)) => {
            if teq(a, b) {
                assert forall|i: int| 0 <= i < a1.len() implies a1[i] == a2[i] by {
                    lemma_teq_is_eq(a1[i], a2[i]);
                }
                assert(a1 =~= a2);
                assert(a =~= b);
            }
            if a == b {
                assert forall|i: int| 0 <= i < a1.len() implies teq(a1[i], a2[i]) by {
                    lemma_teq_is_eq(a1[i], a2[i]);
                }
            }
        },
        _ => {},
    }
}

/// A type, either generic or precise.
pub enum Type {
    /// A generic type with arguments.
    Generic(GenericType),
    /// A precise type.
    Precise(PreciseType),
}

/// A precise type.
pub struct PreciseType(pub Path);

/// A generic type: a base path and its type arguments.
pub struct GenericType {
    /// The path of the base type.
    pub path: Path,
    /// The generic type arguments.
    pub generics: Vec<Type>,
}

/// An instantiated generic type: a single-segment alias bound to a concrete
/// generic type.
pub struct InstantiatedType {
    /// The alias type path.
    pub alias: Path,
    /// The concrete type it instantiates.
    pub concrete: Type,
}

impl Type {
    /// The mathematical value of this type.
    pub open spec fn view(&self) -> TypeV
        decreases *self,
    {
        match *self {
            Type::Precise(PreciseType(ref p)) => TypeV::Precise(p@),
            Type::Generic(ref g) => TypeV::Generic(g.path@, views_of(g.generics@)),
        }
    }
}

/// The values of a sequence of types.
pub open spec fn views_of(ts: Seq<Type>) -> Seq<TypeV>
    decreases ts,
{
    if ts.len() == 0 {
        Seq::empty()
    } else {
        views_of(ts.drop_last()).push(ts.last()@)
    }
}

/// `views_of` maps each element to its value.
pub proof fn lemma_views_of(ts: Seq<Type>)
    ensures
        views_of(ts).len() == ts.len(),
        forall|i: int| 0 <= i < ts.len() ==> views_of(ts)[i] == (#[trigger] ts[i])@,
    decreases ts.len(),
{
    if ts.len() > 0 {
        lemma_views_of(ts.drop_last());
        assert forall|i: int| 0 <= i < ts.len() implies views_of(ts)[i] == (#[trigger] ts[i])@ by {
            if i < ts.len() - 1 {
                assert(ts.drop_last()[i] == ts[i]);
            }
        }
    }
}

/// Well-formedness of a type value: whenever arguments are present the base
/// path is non-empty, so that rendering has a last segment to extend.
pub open spec fn type_wf(t: TypeV) -> bool
    decreases t,
{
    match t {
        TypeV::Precise(_) => true,
        TypeV::Generic(p, args) => (args.len() > 0 ==> p.len() > 0) && (forall|i: int|
            0 <= i < args.len() ==> type_wf(#[trigger] args[i])),
    }
}

/// The rendered segments of a type value: for a generic type the last
/// segment carries the angle-bracketed argument list.
pub open spec fn rendered_segs(t: TypeV) -> Seq<Seq<char>>
    decreases t, 1int,
{
    match t {
        TypeV::Precise(p) => p,
        TypeV::Generic(p, args) => {
            if args.len() == 0 {
                p
            } else if p.len() == 0 {
                p
            } else {
                p.update(
                    p.len() - 1,
                    p.last() + seq!['<'] + args_list(args) + seq!['>'],
                )
            }
        },
    }
}

/// The comma-joined rendering of a type argument list.
pub open spec fn args_list(args: Seq<TypeV>) -> Seq<char>
    decreases args, 0int,
{
    if args.len() == 0 {
        Seq::empty()
    } else if args.len() == 1 {
        rendered_string(args[0])
    } else {
        rendered_string(args[0]) + seq![',', ' '] + args_list(args.drop_first())
    }
}

/// The full rendered string of a type value.
pub open spec fn rendered_string(t: TypeV) -> Seq<char>
    decreases t, 2int,
{
    join_with(rendered_segs(t), sep_path())
}

/// Equality of type values that ignores generic arguments: generic types
/// compare by base path alone.
pub open spec fn eq_ignore_generics_spec(a: TypeV, b: TypeV) -> bool {
    match (a, b) {
        (TypeV::Generic(p1, _), TypeV::Generic(p2, _)) => p1 == p2,
        (TypeV::Precise(p1), TypeV::Precise(p2)) => p1 == p2,
        _ => false,
    }
}

/// Parsing one level of angle brackets out of the last segment of `segs`.
pub open spec fn from_path_spec(segs: Seq<Seq<char>>) -> TypeV
    recommends
        segs.len() > 0,
{
    let last = segs.last();
    if contains_char(last, '<') {
        let i = first_index(last, '<').unwrap();
        let base = segs.update(segs.len() - 1, last.take(i));
        let rest = last.skip(i + 1);
        let level = match first_index(rest, '<') {
            None => rest,
            Some(j) => rest.take(j),
        };
        let inner = trim_end_spec(level, '>');
        let args = split_on_char(inner, ',').map_values(
            |p: Seq<char>| TypeV::Precise(seq![trim_spaces_spec(p)]),
        );
        TypeV::Generic(base, args)
    } else {
        TypeV::Precise(segs)
    }
}

impl Type {
    /// Parse a type from its path representation, reading one level of
    /// embedded angle brackets out of the last segment.
    pub fn from_path(path: Path) -> (r: Type)
        requires
            path@.len() > 0,
        ensures
            r@ == from_path_spec(path@),
    {
        let n = path.0.len();
        let last: &String = &path.0[n - 1];
        if has_char(last.as_str(), '<') {
            let i = match find_char(last.as_str(), '<') {
                Some(i) => i,
                None => {
                    proof {
                        lemma_first_index_characterizes(last@, '<');
                    }
                    // contains_char holds, so find_char cannot miss
                    assert(false);
                    0
                },
            };
            proof {
                lemma_first_index_characterizes(last@, '<');
            }
            let base_name = last.as_str().substring_char(0, i).to_owned();
            let m = last.as_str().unicode_len();
            let rest = last.as_str().substring_char(i + 1, m);
            proof {
                assert(rest@ =~= last@.skip(i + 1));
            }
            let jopt = find_char(rest, '<');
            proof {
                lemma_first_index_characterizes(rest@, '<');
            }
            let level: &str = match jopt {
                Some(j) => rest.substring_char(0, j),
                None => rest,
            };
            proof {
                match first_index(rest@, '<') {
                    None => {},
                    Some(j) => {
                        assert(level@ =~= rest@.take(j));
                    },
                }
            }
            let inner = trim_end_char(level, '>');
            let pieces = split_char(inner.as_str(), ',');
            let mut args: Vec<Type> = Vec::new();
            let ghost pieces_v = split_on_char(inner@, ',');
            let mut k: usize = 0;
            while k < pieces.len()
                invariant
                    k <= pieces.len(),
                    pieces@.map_values(|x: String| x@) == pieces_v,
                    pieces@.len() == pieces_v.len(),
                    args@.len() == k,
                    forall|j: int|
                        0 <= j < k ==> (#[trigger] args@[j])@ == TypeV::Precise(
                            seq![trim_spaces_spec(pieces_v[j])],
                        ),
                decreases pieces.len() - k,
            {
                let trimmed = trim_spaces(pieces[k].as_str());
                let mut seg: Vec<String> = Vec::new();
                seg.push(trimmed);
                args.push(Type::Precise(PreciseType(Path(seg))));
                proof {
                    assert(args@.last()@ == TypeV::Precise(seq![trim_spaces_spec(pieces_v[
                        k as int])]));
                }
                k += 1;
            }
            let mut base_segs = clone_segments(&path.0);
            base_segs.set(n - 1, base_name);
            let r = Type::Generic(
                GenericType { path: Path(base_segs), generics: args },
            );
            proof {
                let expected = from_path_spec(path@);
                lemma_views_of(args@);
                assert(Path(base_segs)@ =~= path@.update(path@.len() - 1, last@.take(i as int)));
                let rhs = split_on_char(inner@, ',').map_values(
                    |p: Seq<char>| TypeV::Precise(seq![trim_spaces_spec(p)]),
                );
                assert forall|j: int| 0 <= j < pieces_v.len() implies views_of(args@)[j] == rhs[j]
                    by {
                    assert(views_of(args@)[j] == args@[j]@);
                    assert(rhs[j] == TypeV::Precise(seq![trim_spaces_spec(pieces_v[j])]));
                }
                assert(views_of(args@) =~= rhs);
                assert(r@ =~~= expected);
            }
            r
        } else {
            let r = Type::Precise(PreciseType(path.duplicate()));
            proof {
                assert(r@ =~= from_path_spec(path@));
            }
            r
        }
    }

    /// The path representation of the type, arguments rendered into the last
    /// segment.
    pub fn to_path(&self) -> (r: Path)
        requires
            type_wf(self@),
        ensures
            r@ == rendered_segs(self@),
        decreases *self,
    {
        match self {
            Type::Precise(PreciseType(p)) => p.duplicate(),
            Type::Generic(g) => g.to_path(),
        }
    }

    /// The path representation of the type.  Same as [`Type::to_path`].
    pub fn as_path(&self) -> (r: Path)
        requires
            type_wf(self@),
        ensures
            r@ == rendered_segs(self@),
    {
        self.to_path()
    }

    /// Check equality ignoring generic arguments.
    pub fn eq_ignore_generics(&self, other: &Type) -> (r: bool)
        ensures
            r == eq_ignore_generics_spec(self@, other@),
    {
        match (self, other) {
            (Type::Generic(g1), Type::Generic(g2)) => segments_eq(&g1.path.0, &g2.path.0),
            (Type::Precise(p1), Type::Precise(p2)) => segments_eq(&p1.0.0, &p2.0.0),
            _ => false,
        }
    }

    /// An explicit deep copy.
    pub fn duplicate(&self) -> (r: Type)
        ensures
            r@ == self@,
        decreases *self,
    {
        match self {
            Type::Precise(PreciseType(p)) => Type::Precise(PreciseType(p.duplicate())),
            Type::Generic(g) => {
                let mut args: Vec<Type> = Vec::new();
                let mut i: usize = 0;
                while i < g.generics.len()
                    invariant
                        i <= g.generics.len(),
                        args@.len() == i,
                        *self is Generic && self->Generic_0 == *g,
                        forall|j: int|
                            0 <= j < i ==> (#[trigger] args@[j])@ == g.generics@[j]@,
                    decreases g.generics.len() - i,
                {
                    proof {
                        assert((*self)->Generic_0 == *g);
                        assert(decreases_to!(*self => (*self)->Generic_0));
                        assert(decreases_to!(*g => g.generics));
                        assert(decreases_to!(g.generics => g.generics[i as int]));
                    }
                    let copy = g.generics[i].duplicate();
                    args.push(copy);
                    i += 1;
                }
                let r = Type::Generic(GenericType { path: g.path.duplicate(), generics: args });
                proof {
                    lemma_views_of(args@);
                    lemma_views_of(g.generics@);
                    assert forall|j: int| 0 <= j < args@.len() implies views_of(args@)[j]
                        == views_of(g.generics@)[j] by {
                        assert(views_of(args@)[j] == args@[j]@);
                        assert(views_of(g.generics@)[j] == g.generics@[j]@);
                    }
                    assert(views_of(args@) =~= views_of(g.generics@));
                    assert(r@ =~~= self@);
                }
                r
            },
        }
    }

    /// Structural equality of two types.
    pub fn same_as(&self, other: &Type) -> (r: bool)
        ensures
            r == (self@ == other@),
        decreases *self,
    {
        proof {
            lemma_teq_is_eq(self@, other@);
        }
        match (self, other) {
            (Type::Precise(PreciseType(p1)), Type::Precise(PreciseType(p2))) => p1.same_as(p2),
            (Type::Generic(g1), Type::Generic(g2)) => {
                proof {
                    lemma_views_of(g1.generics@);
                    lemma_views_of(g2.generics@);
                }
                if !g1.path.same_as(&g2.path) {
                    assert(self@ != other@);
                    return false;
                }
                if g1.generics.len() != g2.generics.len() {
                    assert(self@ != other@);
                    return false;
                }
                let mut i: usize = 0;
                while i < g1.generics.len()
                    invariant
                        i <= g1.generics.len(),
                        g1.generics@.len() == g2.generics@.len(),
                        forall|j: int|
                            0 <= j < i ==> (#[trigger] g1.generics@[j])@ == g2.generics@[j]@,
                        g1.path@ == g2.path@,
                        *self is Generic && self->Generic_0 == *g1,
                        *other is Generic && other->Generic_0 == *g2,
                    decreases g1.generics.len() - i,
                {
                    proof {
                        assert((*self)->Generic_0 == *g1);
                        assert(decreases_to!(*self => (*self)->Generic_0));
                        assert(decreases_to!(*g1 => g1.generics));
                        assert(decreases_to!(g1.generics => g1.generics[i as int]));
                    }
                    let e = g1.generics[i].same_as(&g2.generics[i]);
                    if !e {
                        proof {
                            lemma_views_of(g1.generics@);
                            lemma_views_of(g2.generics@);
                            assert(views_of(g1.generics@)[i as int] != views_of(g2.generics@)[
                                i as int]);
                            assert(self@ != other@);
                        }
                        return false;
                    }
                    i += 1;
                }
                proof {
                    lemma_views_of(g1.generics@);
                    lemma_views_of(g2.generics@);
                    assert forall|j: int| 0 <= j < g1.generics@.len() implies views_of(
                        g1.generics@,
                    )[j] == views_of(g2.generics@)[j] by {
                        assert(views_of(g1.generics@)[j] == g1.generics@[j]@);
                        assert(views_of(g2.generics@)[j] == g2.generics@[j]@);
                    }
                    assert(views_of(g1.generics@) =~= views_of(g2.generics@));
                    assert(self@ =~~= other@);
                }
                true
            },
            (Type::Precise(PreciseType(p1)), Type::Generic(_)) => false,
            (Type::Generic(_), Type::Precise(PreciseType(p2))) => false,
        }
    }
}

impl GenericType {
    /// The mathematical value of this generic type.
    pub open spec fn view(&self) -> TypeV {
        TypeV::Generic(self.path@, views_of(self.generics@))
    }

    /// The path representation of the generic type: the argument list is
    /// rendered into the last segment of the base path.
    pub fn to_path(&self) -> (r: Path)
        requires
            type_wf(self@),
        ensures
            r@ == rendered_segs(self@),
        decreases self.generics,
    {
        let ghost args_v = views_of(self.generics@);
        proof {
            lemma_views_of(self.generics@);
        }
        if self.generics.len() == 0 {
            let r = self.path.duplicate();
            proof {
                assert(args_v.len() == 0);
            }
            r
        } else {
            proof {
                reveal_strlit("<");
                reveal_strlit(">");
                reveal_strlit(", ");
            }
            let mut arg_text = String::new();
            let mut i: usize = 0;
            proof {
                assert(decreases_to!(self.generics => self.generics[0int]));
                assert(args_v[0] == self.generics@[0]@);
                lemma_generic_wf_args(self@);
                assert(self@->Generic_1 == args_v);
                assert(type_wf(args_v[0]));
            }
            let first = self.generics[0].to_path();
            arg_text.append(first.to_string().as_str());
            proof {
                lemma_args_list_take(args_v, 1);
                assert(args_v.take(1)[0] == args_v[0]);
                assert(args_list(args_v.take(1)) == rendered_string(args_v[0]));
            }
            i = 1;
            while i < self.generics.len()
                invariant
                    1 <= i <= self.generics.len(),
                    args_v == views_of(self.generics@),
                    args_v.len() == self.generics@.len(),
                    type_wf(self@),
                    arg_text@ == args_list(args_v.take(i as int)),
                decreases self.generics.len() - i,
            {
                proof {
                    reveal_strlit(", ");
                    lemma_views_of(self.generics@);
                    assert(args_v[i as int] == self.generics@[i as int]@);
                    lemma_generic_wf_args(self@);
                    assert(self@->Generic_1 == args_v);
                    assert(type_wf(args_v[i as int]));
                    assert(decreases_to!(self.generics => self.generics[i as int]));
                }
                let p = self.generics[i].to_path();
                arg_text.append(", ");
                arg_text.append(p.to_string().as_str());
                proof {
                    lemma_args_list_snoc(args_v.take(i as int + 1));
                    assert(args_v.take(i as int + 1).drop_last() =~= args_v.take(i as int));
                    assert(", "@ =~= seq![',', ' ']);
                }
                i += 1;
            }
            proof {
                assert(args_v.take(args_v.len() as int) =~= args_v);
            }
            let n = self.path.0.len();
            let mut full = clone_segments(&self.path.0);
            let mut last = self.path.0[n - 1].clone();
            last.append("<");
            last.append(arg_text.as_str());
            last.append(">");
            full.set(n - 1, last);
            let r = Path(full);
            proof {
                assert("<"@ =~= seq!['<']);
                assert(">"@ =~= seq!['>']);
                assert(r@ =~= rendered_segs(self@));
            }
            r
        }
    }

    /// The path representation of the generic type.  Same as
    /// [`GenericType::to_path`].
    pub fn as_path(&self) -> (r: Path)
        requires
            type_wf(self@),
        ensures
            r@ == rendered_segs(self@),
    {
        self.to_path()
    }
}

/// A well-formed generic type value has well-formed arguments.
pub proof fn lemma_generic_wf_args(t: TypeV)
    requires
        type_wf(t),
        t is Generic,
    ensures
        forall|i: int| 0 <= i < t->Generic_1.len() ==> type_wf(#[trigger] t->Generic_1[i]),
{
}

/// The argument list of a one-element prefix is the rendering of its head.
proof fn lemma_args_list_take(args: Seq<TypeV>, n: int)
    requires
        n == 1,
        args.len() >= 1,
    ensures
        args_list(args.take(1)) == rendered_string(args[0]),
{
    assert(args.take(1).len() == 1);
    assert(args.take(1)[0] == args[0]);
}

/// Rendering an argument list extends by `", "` and the last element.
proof fn lemma_args_list_snoc(args: Seq<TypeV>)
    requires
        args.len() >= 2,
    ensures
        args_list(args) =~= args_list(args.drop_last()) + seq![',', ' '] + rendered_string(
            args.last(),
        ),
    decreases args.len(),
{
    if args.len() == 2 {
        assert(args.drop_first().len() == 1);
        assert(args.drop_first()[0] == args[1]);
        assert(args.drop_last().len() == 1);
        assert(args.drop_last()[0] == args[0]);
        assert(args_list(args) == rendered_string(args[0]) + seq![',', ' '] + args_list(
            args.drop_first(),
        ));
        assert(args_list(args.drop_first()) == rendered_string(args[1]));
        assert(args_list(args.drop_last()) == rendered_string(args[0]));
    } else {
        lemma_args_list_snoc(args.drop_first());
        assert(args.drop_first().drop_last() =~= args.drop_last().drop_first());
        assert(args.drop_first().last() == args.last());
        assert(args_list(args) == rendered_string(args[0]) + seq![',', ' '] + args_list(
            args.drop_first(),
        ));
        assert(args.drop_last().len() >= 2);
        assert(args_list(args.drop_last()) == rendered_string(args.drop_last()[0]) + seq![
            ',',
            ' ',
        ] + args_list(args.drop_last().drop_first()));
        assert(args.drop_last()[0] == args[0]);
    }
}

} // verus!
