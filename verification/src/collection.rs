//! The function collection behind harness synthesis.
//!
//! The functions under checking are re-partitioned into free functions and
//! methods; constructors and getters are kept by their impl type.  A method
//! without a constructor for its type cannot be driven and is dropped; a
//! constructor or getter whose type has no surviving method is unused and
//! dropped too.

use vstd::prelude::*;

verus! {

use crate::checker::Checker;
use crate::defs::CommonFunction;
use crate::defs::Precondition;
use crate::defs::opt_type_view;
use crate::path::Path;
use crate::types::TypeV;

broadcast use vstd::std_specs::vec::group_vec_axioms;

/// Whether the sequence holds a function whose impl type has the given
/// value.
pub open spec fn has_impl_type(fs: Seq<CommonFunction>, ty: TypeV) -> bool {
    exists|k: int|
        0 <= k < fs.len() && opt_type_view(&(#[trigger] fs[k]).metadata.impl_type) == Some(ty)
}

/// Whether a method survives: its impl type has a constructor.
pub open spec fn keeps_method(m: CommonFunction, ctors: Seq<CommonFunction>) -> bool {
    match opt_type_view(&m.metadata.impl_type) {
        Some(ty) => has_impl_type(ctors, ty),
        None => false,
    }
}

/// The methods whose impl type has a constructor, in order.
pub open spec fn filter_methods(ms: Seq<CommonFunction>, ctors: Seq<CommonFunction>) -> Seq<
    CommonFunction,
>
    decreases ms,
{
    if ms.len() == 0 {
        Seq::empty()
    } else {
        let r = filter_methods(ms.drop_last(), ctors);
        if keeps_method(ms.last(), ctors) {
            r.push(ms.last())
        } else {
            r
        }
    }
}

/// Whether a constructor or getter survives: some method has its type.
pub open spec fn keeps_helper(c: CommonFunction, ms: Seq<CommonFunction>) -> bool {
    match opt_type_view(&c.metadata.impl_type) {
        Some(ty) => has_impl_type(ms, ty),
        None => false,
    }
}

/// The constructors or getters whose type still has a method, in order.
pub open spec fn filter_helpers(cs: Seq<CommonFunction>, ms: Seq<CommonFunction>) -> Seq<
    CommonFunction,
>
    decreases cs,
{
    if cs.len() == 0 {
        Seq::empty()
    } else {
        let r = filter_helpers(cs.drop_last(), ms);
        if keeps_helper(cs.last(), ms) {
            r.push(cs.last())
        } else {
            r
        }
    }
}

/// Dropping methods without constructors twice equals dropping them once.
pub proof fn lemma_filter_methods_idempotent(ms: Seq<CommonFunction>, ctors: Seq<CommonFunction>)
    ensures
        filter_methods(filter_methods(ms, ctors), ctors) == filter_methods(ms, ctors),
    decreases ms,
{
    if ms.len() > 0 {
        lemma_filter_methods_idempotent(ms.drop_last(), ctors);
        if keeps_method(ms.last(), ctors) {
            let inner = filter_methods(ms.drop_last(), ctors);
            assert(filter_methods(ms, ctors) == inner.push(ms.last()));
            assert(inner.push(ms.last()).drop_last() =~= inner);
        }
    }
}

/// Whether an element of `fs` has the same impl type as `f`.
pub fn find_same_impl_type(fs: &Vec<CommonFunction>, ty: &crate::types::Type) -> (r: bool)
    ensures
        r == has_impl_type(fs@, ty@),
{
    let mut i: usize = 0;
    while i < fs.len()
        invariant
            i <= fs@.len(),
            forall|k: int|
                0 <= k < i ==> opt_type_view(&(#[trigger] fs@[k]).metadata.impl_type) != Some(
                    ty@,
                ),
        decreases fs@.len() - i,
    {
        match &fs[i].metadata.impl_type {
            Some(t) => {
                if t.same_as(ty) {
                    proof {
                        assert(opt_type_view(&fs@[i as int].metadata.impl_type) == Some(ty@));
                    }
                    return true;
                }
            },
            None => {},
        }
        i += 1;
    }
    proof {
        if has_impl_type(fs@, ty@) {
            let w = choose|k: int|
                0 <= k < fs@.len() && opt_type_view(&(#[trigger] fs@[k]).metadata.impl_type)
                    == Some(ty@);
            assert(opt_type_view(&fs@[w].metadata.impl_type) != Some(ty@));
        }
    }
    false
}

/// Keep only the methods whose impl type has a constructor.
#[verifier::loop_isolation(false)]
pub fn methods_with_constructors(
    methods: Vec<CommonFunction>,
    ctors: &Vec<CommonFunction>,
) -> (r: Vec<CommonFunction>)
    ensures
        r@ == filter_methods(methods@, ctors@),
{
    let ghost orig = methods@;
    let mut rest = methods;
    let total = rest.len();
    let mut r: Vec<CommonFunction> = Vec::new();
    let mut i: usize = 0;
    while rest.len() > 0
        invariant
            orig.len() == total,
            i + rest@.len() == orig.len(),
            rest@ == orig.skip(i as int),
            r@ == filter_methods(orig.take(i as int), ctors@),
        decreases rest@.len(),
    {
        proof {
            assert(rest@[0] == orig[i as int]);
        }
        let m = rest.remove(0);
        let keep = match &m.metadata.impl_type {
            Some(t) => find_same_impl_type(ctors, t),
            None => false,
        };
        proof {
            assert(orig.take(i as int + 1).drop_last() =~= orig.take(i as int));
            assert(orig.take(i as int + 1).last() == orig[i as int]);
        }
        if keep {
            r.push(m);
            proof {
                assert(r@ =~= filter_methods(orig.take(i as int + 1), ctors@));
            }
        } else {
            proof {
                assert(!keeps_method(orig[i as int], ctors@));
            }
        }
        proof {
            assert(rest@ =~= orig.skip(i + 1));
        }
        i += 1;
    }
    proof {
        assert(orig.take(orig.len() as int) =~= orig);
    }
    r
}

/// Keep only the constructors or getters whose type still has a method.
#[verifier::loop_isolation(false)]
pub fn helpers_with_methods(
    helpers: Vec<CommonFunction>,
    methods: &Vec<CommonFunction>,
) -> (r: Vec<CommonFunction>)
    ensures
        r@ == filter_helpers(helpers@, methods@),
{
    let ghost orig = helpers@;
    let mut rest = helpers;
    let total = rest.len();
    let mut r: Vec<CommonFunction> = Vec::new();
    let mut i: usize = 0;
    while rest.len() > 0
        invariant
            orig.len() == total,
            i + rest@.len() == orig.len(),
            rest@ == orig.skip(i as int),
            r@ == filter_helpers(orig.take(i as int), methods@),
        decreases rest@.len(),
    {
        proof {
            assert(rest@[0] == orig[i as int]);
        }
        let c = rest.remove(0);
        let keep = match &c.metadata.impl_type {
            Some(t) => find_same_impl_type(methods, t),
            None => false,
        };
        proof {
            assert(orig.take(i as int + 1).drop_last() =~= orig.take(i as int));
            assert(orig.take(i as int + 1).last() == orig[i as int]);
        }
        if keep {
            r.push(c);
            proof {
                assert(r@ =~= filter_helpers(orig.take(i as int + 1), methods@));
            }
        } else {
            proof {
                assert(!keeps_helper(orig[i as int], methods@));
            }
        }
        proof {
            assert(rest@ =~= orig.skip(i + 1));
        }
        i += 1;
    }
    proof {
        assert(orig.take(orig.len() as int) =~= orig);
    }
    r
}

/// The functions under checking re-partitioned for harness synthesis.
pub struct FunctionCollection {
    /// Free-standing functions: no self receiver.
    pub functions: Vec<CommonFunction>,
    /// Methods: an impl type and a self receiver.
    pub methods: Vec<CommonFunction>,
    /// Constructors, one per impl type.
    pub constructors: Vec<CommonFunction>,
    /// Getters, one per impl type.
    pub getters: Vec<CommonFunction>,
    /// The preconditions.
    pub preconditions: Vec<Precondition>,
}

/// Whether a signature has a self receiver among its parameters.
pub fn sig_has_receiver(sig: &crate::defs::Signature) -> (r: bool)
    ensures
        r == exists|i: int|
            0 <= i < sig@.inputs.len() && (#[trigger] sig@.inputs[i]) is Receiver,
{
    let mut i: usize = 0;
    while i < sig.inputs.len()
        invariant
            i <= sig.inputs@.len(),
            forall|j: int| 0 <= j < i ==> !((#[trigger] sig@.inputs[j]) is Receiver),
        decreases sig.inputs@.len() - i,
    {
        let isr = sig.inputs[i].is_receiver();
        proof {
            assert(sig@.inputs[i as int] == sig.inputs@[i as int]@);
        }
        if isr {
            return true;
        }
        i += 1;
    }
    proof {
        if exists|i: int| 0 <= i < sig@.inputs.len() && (#[trigger] sig@.inputs[i]) is Receiver {
            let w = choose|i: int|
                0 <= i < sig@.inputs.len() && (#[trigger] sig@.inputs[i]) is Receiver;
            assert(!(sig@.inputs[w] is Receiver));
        }
    }
    false
}

/// A function shaped like a method: an impl type and a self receiver.
pub open spec fn is_method_shape(f: CommonFunction) -> bool {
    f.metadata.impl_type is Some && exists|i: int|
        0 <= i < f.metadata.signature@.inputs.len() && (
        #[trigger] f.metadata.signature@.inputs[i]) is Receiver
}

/// The functions shaped like methods, in order.
pub open spec fn split_methods(fs: Seq<CommonFunction>) -> Seq<CommonFunction>
    decreases fs,
{
    if fs.len() == 0 {
        Seq::empty()
    } else {
        let r = split_methods(fs.drop_last());
        if is_method_shape(fs.last()) {
            r.push(fs.last())
        } else {
            r
        }
    }
}

/// The functions not shaped like methods, in order.
pub open spec fn split_free(fs: Seq<CommonFunction>) -> Seq<CommonFunction>
    decreases fs,
{
    if fs.len() == 0 {
        Seq::empty()
    } else {
        let r = split_free(fs.drop_last());
        if is_method_shape(fs.last()) {
            r
        } else {
            r.push(fs.last())
        }
    }
}

/// The first position whose entry has the given impl type.
pub open spec fn first_type_pos(fs: Seq<CommonFunction>, ty: TypeV) -> int
    decreases fs.len(),
{
    if fs.len() == 0 {
        0
    } else if opt_type_view(&fs[0].metadata.impl_type) == Some(ty) {
        0
    } else {
        1 + first_type_pos(fs.drop_first(), ty)
    }
}

/// A scan that matches at `i` after missing everywhere below finds the
/// first position.
pub proof fn lemma_first_type_pos(fs: Seq<CommonFunction>, ty: TypeV, i: int)
    requires
        0 <= i < fs.len(),
        opt_type_view(&fs[i].metadata.impl_type) == Some(ty),
        forall|j: int| 0 <= j < i ==> opt_type_view(&(#[trigger] fs[j]).metadata.impl_type) != Some(ty),
    ensures
        first_type_pos(fs, ty) == i,
    decreases i,
{
    if i == 0 {
    } else {
        assert(opt_type_view(&fs[0].metadata.impl_type) != Some(ty));
        let rest = fs.drop_first();
        assert(rest[i - 1] == fs[i]);
        assert forall|j: int|
            0 <= j < i - 1 implies opt_type_view(&(#[trigger] rest[j]).metadata.impl_type)
            != Some(ty) by {
            assert(rest[j] == fs[j + 1]);
        }
        lemma_first_type_pos(rest, ty, i - 1);
    }
}

/// One step of the by-type map: replace the first entry with the same impl
/// type, or add at the end.
pub open spec fn upsert_by_type(map: Seq<CommonFunction>, c: CommonFunction) -> Seq<
    CommonFunction,
> {
    let ty = c.metadata.impl_type->0@;
    if has_impl_type(map, ty) {
        map.update(first_type_pos(map, ty), c)
    } else {
        map.push(c)
    }
}

/// The by-type map built from the list: entries without an impl type are
/// skipped, and a later entry replaces an earlier one of the same type.
pub open spec fn fold_by_type(cs: Seq<CommonFunction>) -> Seq<CommonFunction>
    decreases cs,
{
    if cs.len() == 0 {
        Seq::empty()
    } else {
        let m = fold_by_type(cs.drop_last());
        if cs.last().metadata.impl_type is Some {
            upsert_by_type(m, cs.last())
        } else {
            m
        }
    }
}

impl FunctionCollection {
    /// Classify the functions under checking: an impl-typed function with a
    /// self receiver is a method; anything else is free-standing.
    /// Constructors and getters are kept by type, a later one replacing an
    /// earlier one of the same type.
    #[verifier::loop_isolation(false)]
    pub fn new(
        functions: Vec<CommonFunction>,
        constructors: Vec<CommonFunction>,
        getters: Vec<CommonFunction>,
        preconditions: Vec<Precondition>,
    ) -> (r: FunctionCollection)
        ensures
            r.functions@ == split_free(functions@),
            r.methods@ == split_methods(functions@),
            r.constructors@ == fold_by_type(constructors@),
            r.getters@ == fold_by_type(getters@),
            forall|k: int|
                0 <= k < r.methods@.len() ==> (#[trigger] r.methods@[k]).metadata.impl_type
                    is Some,
            r.preconditions == preconditions,
    {
        let mut free: Vec<CommonFunction> = Vec::new();
        let mut methods: Vec<CommonFunction> = Vec::new();
        let mut rest = functions;
        let ghost orig_f = rest@;
        let total_f = rest.len();
        let mut i: usize = 0;
        while rest.len() > 0
            invariant
                orig_f.len() == total_f,
                i + rest@.len() == orig_f.len(),
                rest@ == orig_f.skip(i as int),
                free@ == split_free(orig_f.take(i as int)),
                methods@ == split_methods(orig_f.take(i as int)),
                forall|k: int|
                    0 <= k < methods@.len() ==> (#[trigger] methods@[k]).metadata.impl_type
                        is Some,
            decreases rest@.len(),
        {
            proof {
                assert(rest@[0] == orig_f[i as int]);
            }
            let f = rest.remove(0);
            let is_method = match &f.metadata.impl_type {
                Some(_) => sig_has_receiver(&f.metadata.signature),
                None => false,
            };
            proof {
                assert(is_method == is_method_shape(orig_f[i as int]));
                assert(orig_f.take(i as int + 1).drop_last() =~= orig_f.take(i as int));
                assert(orig_f.take(i as int + 1).last() == orig_f[i as int]);
            }
            if is_method {
                methods.push(f);
            } else {
                free.push(f);
            }
            proof {
                assert(free@ =~= split_free(orig_f.take(i as int + 1)));
                assert(methods@ =~= split_methods(orig_f.take(i as int + 1)));
                assert(rest@ =~= orig_f.skip(i + 1));
            }
            i += 1;
        }
        proof {
            assert(orig_f.take(orig_f.len() as int) =~= orig_f);
        }
        let mut ctor_map: Vec<CommonFunction> = Vec::new();
        let mut rest = constructors;
        let ghost orig_c = rest@;
        let total_c = rest.len();
        let mut i: usize = 0;
        while rest.len() > 0
            invariant
                orig_c.len() == total_c,
                i + rest@.len() == orig_c.len(),
                rest@ == orig_c.skip(i as int),
                ctor_map@ == fold_by_type(orig_c.take(i as int)),
            decreases rest@.len(),
        {
            proof {
                assert(rest@[0] == orig_c[i as int]);
            }
            let c = rest.remove(0);
            proof {
                assert(orig_c.take(i as int + 1).drop_last() =~= orig_c.take(i as int));
                assert(orig_c.take(i as int + 1).last() == orig_c[i as int]);
            }
            if c.metadata.impl_type.is_some() {
                ctor_map = replace_or_push(ctor_map, c);
            }
            proof {
                assert(ctor_map@ =~= fold_by_type(orig_c.take(i as int + 1)));
                assert(rest@ =~= orig_c.skip(i + 1));
            }
            i += 1;
        }
        proof {
            assert(orig_c.take(orig_c.len() as int) =~= orig_c);
        }
        let mut getter_map: Vec<CommonFunction> = Vec::new();
        let mut rest = getters;
        let ghost orig_g = rest@;
        let total_g = rest.len();
        let mut i: usize = 0;
        while rest.len() > 0
            invariant
                orig_g.len() == total_g,
                i + rest@.len() == orig_g.len(),
                rest@ == orig_g.skip(i as int),
                getter_map@ == fold_by_type(orig_g.take(i as int)),
            decreases rest@.len(),
        {
            proof {
                assert(rest@[0] == orig_g[i as int]);
            }
            let g = rest.remove(0);
            proof {
                assert(orig_g.take(i as int + 1).drop_last() =~= orig_g.take(i as int));
                assert(orig_g.take(i as int + 1).last() == orig_g[i as int]);
            }
            if g.metadata.impl_type.is_some() {
                getter_map = replace_or_push(getter_map, g);
            }
            proof {
                assert(getter_map@ =~= fold_by_type(orig_g.take(i as int + 1)));
                assert(rest@ =~= orig_g.skip(i + 1));
            }
            i += 1;
        }
        proof {
            assert(orig_g.take(orig_g.len() as int) =~= orig_g);
        }
        FunctionCollection {
            functions: free,
            methods,
            constructors: ctor_map,
            getters: getter_map,
            preconditions,
        }
    }

    /// The precondition registered for the given function, by name.
    pub fn get_precondition(&self, func: &CommonFunction) -> (r: Option<&Precondition>)
        ensures
            match r {
                Some(p) => exists|k: int|
                    0 <= k < self.preconditions@.len() && (#[trigger] self.preconditions@[k]).name@
                        == func.metadata.name@ && self.preconditions@[k] == *p,
                None => forall|k: int|
                    0 <= k < self.preconditions@.len() ==> (#[trigger] self.preconditions@[
                    k]).name@ != func.metadata.name@,
            },
    {
        let mut i: usize = 0;
        while i < self.preconditions.len()
            invariant
                i <= self.preconditions@.len(),
                forall|k: int|
                    0 <= k < i ==> (#[trigger] self.preconditions@[k]).name@
                        != func.metadata.name@,
            decreases self.preconditions@.len() - i,
        {
            if self.preconditions[i].name.same_as(&func.metadata.name) {
                return Some(&self.preconditions[i]);
            }
            i += 1;
        }
        None
    }

    /// Drop the constructors and getters whose type has no surviving
    /// method.
    pub fn remove_unused_constructors_and_getters(&mut self)
        ensures
            final(self).constructors@ == filter_helpers(
                old(self).constructors@,
                old(self).methods@,
            ),
            final(self).getters@ == filter_helpers(old(self).getters@, old(self).methods@),
            final(self).functions == old(self).functions,
            final(self).methods == old(self).methods,
            final(self).preconditions == old(self).preconditions,
    {
        let mut ctors: Vec<CommonFunction> = Vec::new();
        core::mem::swap(&mut ctors, &mut self.constructors);
        let kept = helpers_with_methods(ctors, &self.methods);
        self.constructors = kept;
        let mut getters: Vec<CommonFunction> = Vec::new();
        core::mem::swap(&mut getters, &mut self.getters);
        let kept = helpers_with_methods(getters, &self.methods);
        self.getters = kept;
    }

    /// Drop the methods whose impl type has no constructor.  Doing this
    /// twice equals doing it once.
    pub fn remove_methods_without_constructors(&mut self)
        ensures
            final(self).methods@ == filter_methods(old(self).methods@, old(self).constructors@),
            final(self).functions == old(self).functions,
            final(self).constructors == old(self).constructors,
            final(self).getters == old(self).getters,
            final(self).preconditions == old(self).preconditions,
    {
        let mut ms: Vec<CommonFunction> = Vec::new();
        core::mem::swap(&mut ms, &mut self.methods);
        let kept = methods_with_constructors(ms, &self.constructors);
        self.methods = kept;
    }
}

/// Replace the first entry with the same impl type, or add at the end.
#[verifier::loop_isolation(false)]
fn replace_or_push(map: Vec<CommonFunction>, c: CommonFunction) -> (r: Vec<CommonFunction>)
    requires
        c.metadata.impl_type is Some,
    ensures
        r@ == upsert_by_type(map@, c),
        has_impl_type(r@, c.metadata.impl_type->0@),
{
    let ghost orig = map@;
    let mut map = map;
    let ty = match &c.metadata.impl_type {
        Some(t) => t.duplicate(),
        None => {
            proof {
                assert(false);
            }
            unreached()
        },
    };
    let mut i: usize = 0;
    while i < map.len()
        invariant
            i <= map@.len(),
            map@ == orig,
            ty@ == c.metadata.impl_type->0@,
            forall|j: int|
                0 <= j < i ==> opt_type_view(&(#[trigger] orig[j]).metadata.impl_type) != Some(
                    ty@,
                ),
        decreases map@.len() - i,
    {
        let same = match &map[i].metadata.impl_type {
            Some(t) => t.same_as(&ty),
            None => false,
        };
        if same {
            proof {
                assert(opt_type_view(&orig[i as int].metadata.impl_type) == Some(ty@));
                lemma_first_type_pos(orig, ty@, i as int);
                assert(has_impl_type(orig, ty@));
            }
            map.set(i, c);
            proof {
                assert(map@ =~= upsert_by_type(orig, c));
                assert(opt_type_view(&map@[i as int].metadata.impl_type) == Some(
                    c.metadata.impl_type->0@,
                ));
            }
            return map;
        }
        i += 1;
    }
    proof {
        if has_impl_type(orig, ty@) {
            let w = choose|k: int|
                0 <= k < orig.len() && opt_type_view(&(#[trigger] orig[k]).metadata.impl_type)
                    == Some(ty@);
            assert(opt_type_view(&orig[w].metadata.impl_type) != Some(ty@));
        }
    }
    map.push(c);
    proof {
        assert(map@ =~= upsert_by_type(orig, c));
        assert(opt_type_view(&map@[map@.len() - 1].metadata.impl_type) == Some(
            c.metadata.impl_type->0@,
        ));
    }
    map
}

/// The function names checked by the fuzzing harness: the free functions
/// then the methods, after the cleanup passes in fuzzer order.
pub fn checked_function_names(collection: &FunctionCollection) -> (r: Vec<Path>)
    ensures
        r@.len() == collection.functions@.len() + collection.methods@.len(),
        forall|k: int|
            0 <= k < collection.functions@.len() ==> (#[trigger] r@[k])@ == collection.functions@[
                k
            ].metadata.name@,
        forall|k: int|
            0 <= k < collection.methods@.len() ==> r@[collection.functions@.len() + k]@ == (
            #[trigger] collection.methods@[k]).metadata.name@,
{
    let mut r: Vec<Path> = Vec::new();
    let mut i: usize = 0;
    while i < collection.functions.len()
        invariant
            i <= collection.functions@.len(),
            r@.len() == i,
            forall|k: int|
                0 <= k < i ==> (#[trigger] r@[k])@ == collection.functions@[k].metadata.name@,
        decreases collection.functions@.len() - i,
    {
        r.push(collection.functions[i].metadata.name.duplicate());
        i += 1;
    }
    let mut j: usize = 0;
    while j < collection.methods.len()
        invariant
            j <= collection.methods@.len(),
            r@.len() == collection.functions@.len() + j,
            forall|k: int|
                0 <= k < collection.functions@.len() ==> (#[trigger] r@[k])@
                    == collection.functions@[k].metadata.name@,
            forall|k: int|
                0 <= k < j ==> r@[collection.functions@.len() + k]@ == (
                #[trigger] collection.methods@[k]).metadata.name@,
        decreases collection.methods@.len() - j,
    {
        r.push(collection.methods[j].metadata.name.duplicate());
        j += 1;
    }
    r
}

} // verus!
