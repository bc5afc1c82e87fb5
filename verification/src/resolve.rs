//! Resolution of symbol paths to their fully qualified form.
//!
//! The resolver keeps a stack of module names for `crate`, `self` and
//! `super`, and a per-scope mapping from local name to absolute path built
//! from the `use` items.  A module does not inherit its parent's imports:
//! on entry the mapping is snapshotted and cleared, on exit restored.

use vstd::prelude::*;

verus! {

use crate::path::Path;
use crate::path::clone_segments;
use crate::text::str_eq;
use vstd::string::StringExecFns;

broadcast use vstd::std_specs::vec::group_vec_axioms;

/// The stack of module names around the current position.
pub struct ModuleStack(pub Vec<String>);

impl ModuleStack {
    /// The segment views of the stack.
    pub open spec fn view(&self) -> Seq<Seq<char>> {
        self.0@.map_values(|s: String| s@)
    }

    /// Create an empty module stack.
    pub fn new() -> (r: ModuleStack)
        ensures
            r@ =~= Seq::<Seq<char>>::empty(),
    {
        ModuleStack(Vec::new())
    }

    /// Push a module name.
    pub fn push(&mut self, module: &str)
        ensures
            final(self)@ =~= old(self)@.push(module@),
    {
        self.0.push(module.to_owned());
    }

    /// Pop the innermost module name; popping an empty stack changes
    /// nothing.
    pub fn pop(&mut self)
        ensures
            old(self)@.len() > 0 ==> final(self)@ == old(self)@.drop_last(),
            old(self)@.len() == 0 ==> final(self)@ == old(self)@,
    {
        let popped = self.0.pop();
        proof {
            if old(self).0@.len() > 0 {
                assert(final(self)@ =~= old(self)@.drop_last());
            } else {
                assert(final(self)@ =~= old(self)@);
            }
        }
    }

    /// The current module path.
    pub fn current(&self) -> (r: Path)
        ensures
            r@ =~= self@,
    {
        Path(clone_segments(&self.0))
    }

    /// The parent module path; the empty path at the top.
    pub fn parent(&self) -> (r: Path)
        ensures
            self@.len() > 0 ==> r@ =~= self@.drop_last(),
            self@.len() == 0 ==> r@ =~= self@,
    {
        let mut segs = clone_segments(&self.0);
        if segs.len() > 0 {
            segs.pop();
        }
        let r = Path(segs);
        proof {
            if self@.len() > 0 {
                assert(r@ =~= self@.drop_last());
            } else {
                assert(r@ =~= self@);
            }
        }
        r
    }

    /// The current module path extended by one symbol.
    pub fn concat(&self, symbol: &str) -> (r: Path)
        ensures
            r@ =~= self@.push(symbol@),
    {
        let mut segs = clone_segments(&self.0);
        segs.push(symbol.to_owned());
        Path(segs)
    }
}

/// The mapping built from the `use` items: later entries shadow earlier
/// ones with the same name.
pub open spec fn map_of(ms: Seq<(String, Path)>) -> Map<Seq<char>, Seq<Seq<char>>>
    decreases ms,
{
    if ms.len() == 0 {
        Map::empty()
    } else {
        map_of(ms.drop_last()).insert(ms.last().0@, ms.last().1@)
    }
}

/// A `use` tree: the shapes of the import items.
pub enum UseTree {
    /// A path prefix followed by a subtree.
    Prefix { ident: String, tree: Box<UseTree> },
    /// A plain imported name.
    Name { ident: String },
    /// An imported name bound under another one.
    Rename { ident: String, rename: String },
    /// A glob import; ignored.
    Glob,
    /// A braced group of subtrees.
    Group { items: Vec<UseTree> },
}

/// The value of a `use` tree.
pub enum UseTreeV {
    /// A path prefix followed by a subtree.
    Prefix(Seq<char>, Box<UseTreeV>),
    /// A plain imported name.
    Name(Seq<char>),
    /// An imported name bound under another one.
    Rename(Seq<char>, Seq<char>),
    /// A glob import; ignored.
    Glob,
    /// A braced group of subtrees.
    Group(Seq<UseTreeV>),
}

impl UseTree {
    /// The value of this tree.
    pub open spec fn view(&self) -> UseTreeV
        decreases *self,
    {
        match *self {
            UseTree::Prefix { ref ident, ref tree } => UseTreeV::Prefix(
                ident@,
                Box::new((**tree)@),
            ),
            UseTree::Name { ref ident } => UseTreeV::Name(ident@),
            UseTree::Rename { ref ident, ref rename } => UseTreeV::Rename(ident@, rename@),
            UseTree::Glob => UseTreeV::Glob,
            UseTree::Group { ref items } => UseTreeV::Group(use_tree_views(items@)),
        }
    }
}

/// The values of a sequence of `use` trees.
pub open spec fn use_tree_views(ts: Seq<UseTree>) -> Seq<UseTreeV>
    decreases ts,
{
    if ts.len() == 0 {
        Seq::empty()
    } else {
        use_tree_views(ts.drop_last()).push(ts.last()@)
    }
}

/// `use_tree_views` maps each element to its value.
pub proof fn lemma_use_tree_views(ts: Seq<UseTree>)
    ensures
        use_tree_views(ts).len() == ts.len(),
        forall|i: int| 0 <= i < ts.len() ==> use_tree_views(ts)[i] == (#[trigger] ts[i])@,
    decreases ts.len(),
{
    if ts.len() > 0 {
        lemma_use_tree_views(ts.drop_last());
        assert forall|i: int| 0 <= i < ts.len() implies use_tree_views(ts)[i] == (
        #[trigger] ts[i])@ by {
            if i < ts.len() - 1 {
                assert(ts.drop_last()[i] == ts[i]);
            }
        }
    }
}

/// The mappings added by walking a `use` tree under a prefix.
pub open spec fn apply_use_tree(
    m: Map<Seq<char>, Seq<Seq<char>>>,
    t: UseTreeV,
    prefix: Seq<Seq<char>>,
) -> Map<Seq<char>, Seq<Seq<char>>>
    decreases t,
{
    match t {
        UseTreeV::Prefix(ident, tree) => apply_use_tree(m, *tree, prefix.push(ident)),
        UseTreeV::Name(ident) => m.insert(ident, prefix.push(ident)),
        UseTreeV::Rename(ident, rename) => m.insert(rename, prefix.push(ident)),
        UseTreeV::Glob => m,
        UseTreeV::Group(items) => apply_use_trees(m, items, prefix),
    }
}

/// The mappings added by walking each tree of a group in order.
pub open spec fn apply_use_trees(
    m: Map<Seq<char>, Seq<Seq<char>>>,
    ts: Seq<UseTreeV>,
    prefix: Seq<Seq<char>>,
) -> Map<Seq<char>, Seq<Seq<char>>>
    decreases ts,
{
    if ts.len() == 0 {
        m
    } else {
        apply_use_tree(apply_use_trees(m, ts.drop_last(), prefix), ts.last(), prefix)
    }
}

/// The resolver: module stack, current mapping, and the snapshots restored
/// on module exit.
pub struct PathResolver {
    /// The module stack.
    pub module: ModuleStack,
    /// Mappings from local symbol to absolute path.
    pub mappings: Vec<(String, Path)>,
    /// Saved mappings of the enclosing scopes.
    pub stack: Vec<Vec<(String, Path)>>,
}

/// The resolution of a path: `crate`, `self` and `super` resolve against
/// the module stack; any other head is looked up in the mapping, or kept as
/// a bare root; the remaining segments are appended.
pub open spec fn resolve_spec(
    p: Seq<Seq<char>>,
    module: Seq<Seq<char>>,
    m: Map<Seq<char>, Seq<Seq<char>>>,
) -> Seq<Seq<char>>
    recommends
        p.len() > 0,
{
    let first = p[0];
    let rest = p.drop_first();
    let prefix = if first == "crate"@ {
        seq!["crate"@]
    } else if first == "self"@ {
        module
    } else if first == "super"@ {
        if module.len() > 0 {
            module.drop_last()
        } else {
            module
        }
    } else if m.contains_key(first) {
        m[first]
    } else {
        seq![first]
    };
    prefix + rest
}

impl PathResolver {
    /// Create an empty resolver.
    pub fn new() -> (r: PathResolver)
        ensures
            r.module@ =~= Seq::<Seq<char>>::empty(),
            map_of(r.mappings@) =~= Map::<Seq<char>, Seq<Seq<char>>>::empty(),
            r.stack@.len() == 0,
    {
        PathResolver { module: ModuleStack::new(), mappings: Vec::new(), stack: Vec::new() }
    }

    /// Resolve a path to its fully qualified form.
    pub fn resolve_path(&self, path: &Path) -> (r: Path)
        requires
            path@.len() > 0,
        ensures
            r@ == resolve_spec(path@, self.module@, map_of(self.mappings@)),
    {
        proof {
            reveal_strlit("crate");
            reveal_strlit("self");
            reveal_strlit("super");
        }
        let first = &path.0[0];
        let prefix: Path = if str_eq(first.as_str(), "crate") {
            let mut segs: Vec<String> = Vec::new();
            segs.push("crate".to_owned());
            let p = Path(segs);
            proof {
                assert(p@ =~= seq!["crate"@]);
            }
            p
        } else if str_eq(first.as_str(), "self") {
            self.module.current()
        } else if str_eq(first.as_str(), "super") {
            self.module.parent()
        } else {
            match self.lookup_mapping(first.as_str()) {
                Some(p) => p,
                None => {
                    let mut segs: Vec<String> = Vec::new();
                    segs.push(first.clone());
                    let p = Path(segs);
                    proof {
                        assert(p@ =~= seq![path@[0]]);
                    }
                    p
                },
            }
        };
        let mut segs = prefix.0;
        let mut i: usize = 1;
        let ghost prefix_v = prefix@;
        while i < path.0.len()
            invariant
                1 <= i <= path.0@.len(),
                path@.len() == path.0@.len(),
                segs@.map_values(|s: String| s@) =~= prefix_v + path@.subrange(1, i as int),
            decreases path.0@.len() - i,
        {
            let ghost prevmap = segs@.map_values(|s: String| s@);
            segs.push(path.0[i].clone());
            proof {
                assert(segs@.map_values(|s: String| s@) =~= prevmap.push(path.0@[i as int]@));
                assert(path@[i as int] == path.0@[i as int]@);
                assert(path@.subrange(1, i as int + 1) =~= path@.subrange(1, i as int).push(
                    path@[i as int],
                ));
                assert(segs@.map_values(|s: String| s@) =~= prefix_v + path@.subrange(
                    1,
                    i as int + 1,
                ));
            }
            i += 1;
        }
        let r = Path(segs);
        proof {
            assert(path@.subrange(1, path@.len() as int) =~= path@.drop_first());
            assert(r@ =~= resolve_spec(path@, self.module@, map_of(self.mappings@)));
        }
        r
    }

    /// Look up a symbol in the mapping; the latest entry wins.
    pub fn lookup_mapping(&self, name: &str) -> (r: Option<Path>)
        ensures
            match r {
                Some(p) => map_of(self.mappings@).contains_key(name@) && p@ == map_of(
                    self.mappings@,
                )[name@],
                None => !map_of(self.mappings@).contains_key(name@),
            },
    {
        lookup_entries(&self.mappings, name)
    }

    /// Enter a module scope: snapshot the mapping, push the module name,
    /// and clear the mapping, since a module does not inherit its parent's
    /// imports.
    pub fn enter_module(&mut self, name: &str)
        ensures
            final(self).module@ =~= old(self).module@.push(name@),
            map_of(final(self).mappings@) =~= Map::<Seq<char>, Seq<Seq<char>>>::empty(),
            final(self).stack@.len() == old(self).stack@.len() + 1,
            final(self).stack@.last() == old(self).mappings,
    {
        let mut saved: Vec<(String, Path)> = Vec::new();
        core::mem::swap(&mut saved, &mut self.mappings);
        self.stack.push(saved);
        self.module.push(name);
    }

    /// Exit the current module scope, restoring the saved mapping.
    pub fn exit_module(&mut self)
        requires
            old(self).stack@.len() > 0,
        ensures
            old(self).module@.len() > 0 ==> final(self).module@ == old(self).module@.drop_last(),
            final(self).mappings == old(self).stack@.last(),
            final(self).stack@ == old(self).stack@.drop_last(),
    {
        self.module.pop();
        let restored = match self.stack.pop() {
            Some(m) => m,
            None => {
                proof {
                    assert(false);
                }
                unreached()
            },
        };
        self.mappings = restored;
        proof {
            assert(final(self).stack@ =~= old(self).stack@.drop_last());
        }
    }

    /// Clear the mapping.
    pub fn clear_mappings(&mut self)
        ensures
            map_of(final(self).mappings@) =~= Map::<Seq<char>, Seq<Seq<char>>>::empty(),
            final(self).module == old(self).module,
            final(self).stack == old(self).stack,
    {
        self.mappings = Vec::new();
    }

    /// The current module path extended by one name; at the top level the
    /// name itself is parsed as a path.
    pub fn concat_module(&self, name: &str) -> (r: Path)
        ensures
            self.module@.len() == 0 ==> r@ == crate::path::split_path(name@),
            self.module@.len() > 0 ==> r@ =~= self.module@.push(name@),
    {
        if self.module.0.len() == 0 {
            Path::from_string(name)
        } else {
            self.module.concat(name)
        }
    }

    /// Add all mappings of a `use` tree into the resolver.
    #[verifier::loop_isolation(false)]
    pub fn parse_use_tree(&mut self, tree: &UseTree, prefix: Path)
        ensures
            map_of(final(self).mappings@) == apply_use_tree(
                map_of(old(self).mappings@),
                tree@,
                prefix@,
            ),
            final(self).module == old(self).module,
            final(self).stack == old(self).stack,
        decreases *tree,
    {
        match tree {
            UseTree::Prefix { ident, tree: sub } => {
                let next = prefix.join(ident.clone());
                self.parse_use_tree(&**sub, next);
            },
            UseTree::Name { ident } => {
                let target = prefix.join(ident.clone());
                self.mappings.push((ident.clone(), target));
                proof {
                    assert(self.mappings@.drop_last() =~= old(self).mappings@);
                    assert(self.mappings@.last().0@ == ident@);
                    assert(self.mappings@.last().1@ =~= prefix@.push(ident@));
                    assert(map_of(self.mappings@) =~= apply_use_tree(
                        map_of(old(self).mappings@),
                        tree@,
                        prefix@,
                    ));
                }
            },
            UseTree::Rename { ident, rename } => {
                let target = prefix.join(ident.clone());
                self.mappings.push((rename.clone(), target));
                proof {
                    assert(self.mappings@.drop_last() =~= old(self).mappings@);
                    assert(self.mappings@.last().0@ == rename@);
                    assert(self.mappings@.last().1@ =~= prefix@.push(ident@));
                    assert(map_of(self.mappings@) =~= apply_use_tree(
                        map_of(old(self).mappings@),
                        tree@,
                        prefix@,
                    ));
                }
            },
            UseTree::Glob => {},
            UseTree::Group { items } => {
                let ghost itemsv = use_tree_views(items@);
                proof {
                    lemma_use_tree_views(items@);
                }
                let mut i: usize = 0;
                while i < items.len()
                    invariant
                        i <= items@.len(),
                        map_of(self.mappings@) == apply_use_trees(
                            map_of(old(self).mappings@),
                            itemsv.take(i as int),
                            prefix@,
                        ),
                        self.module == old(self).module,
                        self.stack == old(self).stack,
                    decreases items@.len() - i,
                {
                    proof {
                        assert(decreases_to!(*tree => (*tree)->Group_items));
                        assert(decreases_to!((*tree)->Group_items => (*tree)->Group_items[
                            i as int]));
                        assert(items@[i as int]@ == itemsv[i as int]);
                    }
                    let sub = prefix.duplicate();
                    self.parse_use_tree(&items[i], sub);
                    proof {
                        assert(itemsv.take(i as int + 1).drop_last() =~= itemsv.take(i as int));
                        assert(itemsv.take(i as int + 1).last() == itemsv[i as int]);
                    }
                    i += 1;
                }
                proof {
                    assert(itemsv.take(itemsv.len() as int) =~= itemsv);
                }
            },
        }
    }
}

/// Look up a name in an entry list; the latest entry wins.
fn lookup_entries(ms: &Vec<(String, Path)>, name: &str) -> (r: Option<Path>)
    ensures
        match r {
            Some(p) => map_of(ms@).contains_key(name@) && p@ == map_of(ms@)[name@],
            None => !map_of(ms@).contains_key(name@),
        },
{
    let mut i: usize = ms.len();
    proof {
        assert(ms@.take(ms@.len() as int) =~= ms@);
    }
    while i > 0
        invariant
            i <= ms@.len(),
            map_of(ms@).contains_key(name@) ==> map_of(ms@.take(i as int)).contains_key(name@)
                && map_of(ms@.take(i as int))[name@] == map_of(ms@)[name@],
            !map_of(ms@).contains_key(name@) ==> !map_of(ms@.take(i as int)).contains_key(name@),
        decreases i,
    {
        proof {
            assert(ms@.take(i as int).drop_last() =~= ms@.take(i as int - 1));
            assert(ms@.take(i as int).last() == ms@[i - 1]);
        }
        if str_eq(ms[i - 1].0.as_str(), name) {
            let p = ms[i - 1].1.duplicate();
            proof {
                assert(map_of(ms@.take(i as int))[name@] == ms@[i - 1].1@);
            }
            return Some(p);
        }
        i -= 1;
    }
    proof {
        assert(ms@.take(0) =~= Seq::<(String, Path)>::empty());
    }
    None
}

/// The collector of harness import symbols: the traits of a source,
/// fully qualified.
pub struct SymbolCollector {
    /// Collected traits.
    pub traits: Vec<Path>,
    /// The module stack at the current position.
    pub module: ModuleStack,
}

impl SymbolCollector {
    /// Create a new symbol collector.
    pub fn new() -> (r: SymbolCollector)
        ensures
            r.traits@.len() == 0,
            r.module@ =~= Seq::<Seq<char>>::empty(),
    {
        SymbolCollector { traits: Vec::new(), module: ModuleStack::new() }
    }

    /// Record one trait under the current module.
    pub fn record_trait(&mut self, ident: &str)
        ensures
            final(self).traits@.len() == old(self).traits@.len() + 1,
            final(self).traits@.last()@ =~= old(self).module@.push(ident@),
            final(self).module == old(self).module,
    {
        let p = self.module.concat(ident);
        self.traits.push(p);
    }
}

} // verus!
