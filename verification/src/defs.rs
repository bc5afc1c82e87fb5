//! Functions, signatures and preconditions.
//!
//! A signature is compared by function identifier, arity, the rendered type
//! of each positional parameter, and the rendered return type.  Parameter
//! names are ignored, and self receivers compare equal regardless of
//! reference or mutability markers.

use vstd::prelude::*;

verus! {

use crate::path::Path;
use crate::path::clone_segments;
use crate::text::str_eq;
use vstd::string::StringExecFns;
use crate::types::Type;
use crate::types::TypeV;

/// The mathematical value of a parameter.
pub enum ParamV {
    /// A self receiver with its markers.
    Receiver { reference: bool, mutable: bool },
    /// A typed parameter: binding name and rendered type.
    Typed { name: Seq<char>, ty: Seq<char> },
}

/// The mathematical value of a signature.
pub struct SignatureV {
    /// The function identifier.
    pub ident: Seq<char>,
    /// The parameters in order.
    pub inputs: Seq<ParamV>,
    /// The rendered return type, absent for the default return.
    pub output: Option<Seq<char>>,
}

/// One parameter of a function signature.
pub enum Param {
    /// A self receiver, with its reference and mutability markers.
    Receiver { reference: bool, mutable: bool },
    /// A typed parameter: its binding name and its rendered type.
    Typed { name: String, ty: String },
}

impl Param {
    /// The mathematical value of this parameter.
    pub open spec fn view(&self) -> ParamV {
        match *self {
            Param::Receiver { reference, mutable } => ParamV::Receiver { reference, mutable },
            Param::Typed { ref name, ref ty } => ParamV::Typed { name: name@, ty: ty@ },
        }
    }

    /// An explicit deep copy.
    pub fn duplicate(&self) -> (r: Param)
        ensures
            r@ == self@,
    {
        match self {
            Param::Receiver { reference, mutable } => Param::Receiver {
                reference: *reference,
                mutable: *mutable,
            },
            Param::Typed { name, ty } => Param::Typed { name: name.clone(), ty: ty.clone() },
        }
    }

    /// Whether this parameter is a self receiver.
    pub fn is_receiver(&self) -> (r: bool)
        ensures
            r == (self@ is Receiver),
    {
        match self {
            Param::Receiver { .. } => true,
            Param::Typed { .. } => false,
        }
    }
}

/// A function signature in its directly comparable form.
pub struct Signature {
    /// The function identifier.
    pub ident: String,
    /// The parameters in order.
    pub inputs: Vec<Param>,
    /// The rendered return type, absent for the default return.
    pub output: Option<String>,
}

/// The values of a sequence of parameters.
pub open spec fn param_views(ps: Seq<Param>) -> Seq<ParamV> {
    ps.map_values(|p: Param| p@)
}

impl Signature {
    /// The mathematical value of this signature.
    pub open spec fn view(&self) -> SignatureV {
        SignatureV {
            ident: self.ident@,
            inputs: param_views(self.inputs@),
            output: match self.output {
                Some(ref o) => Some(o@),
                None => None,
            },
        }
    }

    /// An explicit deep copy.
    pub fn duplicate(&self) -> (r: Signature)
        ensures
            r@ == self@,
    {
        let mut inputs: Vec<Param> = Vec::new();
        let mut i: usize = 0;
        while i < self.inputs.len()
            invariant
                i <= self.inputs.len(),
                inputs@.len() == i,
                forall|j: int| 0 <= j < i ==> (#[trigger] inputs@[j])@ == self.inputs@[j]@,
            decreases self.inputs.len() - i,
        {
            inputs.push(self.inputs[i].duplicate());
            i += 1;
        }
        let output = match &self.output {
            Some(o) => Some(o.clone()),
            None => None,
        };
        let r = Signature { ident: self.ident.clone(), inputs, output };
        proof {
            assert(param_views(r.inputs@) =~= param_views(self.inputs@));
            assert(r@ == self@);
        }
        r
    }

    /// Whether the first parameter is a self receiver.
    pub fn has_receiver(&self) -> (r: bool)
        ensures
            r == (self@.inputs.len() > 0 && self@.inputs[0] is Receiver),
    {
        if self.inputs.len() == 0 {
            false
        } else {
            self.inputs[0].is_receiver()
        }
    }
}

/// Two parameters compare equal when both are receivers — their markers are
/// ignored — or both are typed with the same rendered type — their names are
/// ignored.
pub open spec fn param_eq(a: ParamV, b: ParamV) -> bool {
    match (a, b) {
        (ParamV::Receiver { .. }, ParamV::Receiver { .. }) => true,
        (ParamV::Typed { ty: t1, .. }, ParamV::Typed { ty: t2, .. }) => t1 == t2,
        _ => false,
    }
}

/// Signature equality: same identifier, same arity, positionally equal
/// parameters, and the same rendered return type.
pub open spec fn sig_eq(a: SignatureV, b: SignatureV) -> bool {
    &&& a.ident == b.ident
    &&& a.inputs.len() == b.inputs.len()
    &&& forall|i: int| 0 <= i < a.inputs.len() ==> param_eq(#[trigger] a.inputs[i], b.inputs[i])
    &&& a.output == b.output
}

/// Signature equality is reflexive.
pub proof fn lemma_sig_eq_reflexive(a: SignatureV)
    ensures
        sig_eq(a, a),
{
}

/// Signature equality is symmetric.
pub proof fn lemma_sig_eq_symmetric(a: SignatureV, b: SignatureV)
    ensures
        sig_eq(a, b) == sig_eq(b, a),
{
    if sig_eq(a, b) {
        assert forall|i: int| 0 <= i < b.inputs.len() implies param_eq(
            #[trigger] b.inputs[i],
            a.inputs[i],
        ) by {
            assert(param_eq(a.inputs[i], b.inputs[i]));
        }
    }
    if sig_eq(b, a) {
        assert forall|i: int| 0 <= i < a.inputs.len() implies param_eq(
            #[trigger] a.inputs[i],
            b.inputs[i],
        ) by {
            assert(param_eq(b.inputs[i], a.inputs[i]));
        }
    }
}

/// Signature equality ignores parameter names and receiver markers: two
/// signatures whose parameters differ only there compare equal.
pub proof fn lemma_sig_eq_ignores_bindings(a: SignatureV, b: SignatureV)
    requires
        a.ident == b.ident,
        a.output == b.output,
        a.inputs.len() == b.inputs.len(),
        forall|i: int|
            0 <= i < a.inputs.len() ==> match (#[trigger] a.inputs[i], b.inputs[i]) {
                (ParamV::Receiver { .. }, ParamV::Receiver { .. }) => true,
                (ParamV::Typed { ty: t1, .. }, ParamV::Typed { ty: t2, .. }) => t1 == t2,
                _ => false,
            },
    ensures
        sig_eq(a, b),
{
}

impl PartialEq for Signature {
    /// Compare as signatures: identifier, arity, positional parameter types
    /// and return type; names and receiver markers are ignored.
    fn eq(&self, other: &Signature) -> (r: bool) {
        if !str_eq(self.ident.as_str(), other.ident.as_str()) {
            return false;
        }
        if self.inputs.len() != other.inputs.len() {
            return false;
        }
        let mut i: usize = 0;
        while i < self.inputs.len()
            invariant
                i <= self.inputs.len(),
                self.inputs@.len() == other.inputs@.len(),
                forall|j: int|
                    0 <= j < i ==> param_eq(
                        param_views(self.inputs@)[j],
                        param_views(other.inputs@)[j],
                    ),
            decreases self.inputs.len() - i,
        {
            let ok = match (&self.inputs[i], &other.inputs[i]) {
                (Param::Receiver { .. }, Param::Receiver { .. }) => true,
                (Param::Typed { ty: t1, .. }, Param::Typed { ty: t2, .. }) => str_eq(
                    t1.as_str(),
                    t2.as_str(),
                ),
                _ => false,
            };
            if !ok {
                assert(!param_eq(param_views(self.inputs@)[i as int], param_views(other.inputs@)[
                    i as int]));
                return false;
            }
            i += 1;
        }
        match (&self.output, &other.output) {
            (None, None) => true,
            (Some(o1), Some(o2)) => str_eq(o1.as_str(), o2.as_str()),
            _ => false,
        }
    }
}

impl vstd::std_specs::cmp::PartialEqSpecImpl for Signature {
    open spec fn obeys_eq_spec() -> bool {
        true
    }

    open spec fn eq_spec(&self, other: &Signature) -> bool {
        sig_eq(self@, other@)
    }
}

/// Function metadata: name, signature, and the impl type for methods.
pub struct FunctionMetadata {
    /// Fully qualified name, e.g. `foo` or `module::MyType::bar`.
    pub name: Path,
    /// Function signature.
    pub signature: Signature,
    /// The impl type, if the function is an impl method.
    pub impl_type: Option<Type>,
}

/// The value of an optional type.
pub open spec fn opt_type_view(o: &Option<Type>) -> Option<TypeV> {
    match o {
        Some(t) => Some(t@),
        None => None,
    }
}

/// An explicit deep copy of an optional type.
pub fn duplicate_opt_type(o: &Option<Type>) -> (r: Option<Type>)
    ensures
        opt_type_view(&r) == opt_type_view(o),
{
    match o {
        Some(t) => Some(t.duplicate()),
        None => None,
    }
}

impl FunctionMetadata {
    /// Create new function metadata.
    pub fn new(name: Path, signature: Signature, impl_type: Option<Type>) -> (r: FunctionMetadata)
        ensures
            r.name@ == name@,
            r.signature@ == signature@,
            opt_type_view(&r.impl_type) == opt_type_view(&impl_type),
    {
        FunctionMetadata { name, signature, impl_type }
    }

    /// The function identifier.
    pub fn ident(&self) -> (r: String)
        ensures
            r@ == self.signature@.ident,
    {
        self.signature.ident.clone()
    }

    /// Whether the function is a constructor: an impl method named
    /// `verieasy_new`.
    pub fn is_constructor(&self) -> (r: bool)
        ensures
            r == (self.impl_type is Some && self.signature@.ident == "verieasy_new"@),
    {
        self.impl_type.is_some() && str_eq(self.signature.ident.as_str(), "verieasy_new")
    }

    /// Whether the function is a getter: an impl method named `verieasy_get`
    /// whose first parameter is a self receiver.
    pub fn is_getter(&self) -> (r: bool)
        ensures
            r == (self.impl_type is Some && self@.inputs_first_receiver()
                && self.signature@.ident == "verieasy_get"@),
    {
        self.impl_type.is_some() && self.signature.has_receiver() && str_eq(
            self.signature.ident.as_str(),
            "verieasy_get",
        )
    }

    /// The value of this metadata.
    pub open spec fn view(&self) -> MetadataV {
        MetadataV {
            name: self.name@,
            signature: self.signature@,
            impl_type: opt_type_view(&self.impl_type),
        }
    }

    /// An explicit deep copy.
    pub fn duplicate(&self) -> (r: FunctionMetadata)
        ensures
            r@ == self@,
    {
        FunctionMetadata {
            name: self.name.duplicate(),
            signature: self.signature.duplicate(),
            impl_type: duplicate_opt_type(&self.impl_type),
        }
    }
}

/// The mathematical value of function metadata.
pub struct MetadataV {
    /// The segments of the fully qualified name.
    pub name: Seq<Seq<char>>,
    /// The signature value.
    pub signature: SignatureV,
    /// The impl type value, if any.
    pub impl_type: Option<TypeV>,
}

impl MetadataV {
    /// Whether the first parameter is a self receiver.
    pub open spec fn inputs_first_receiver(&self) -> bool {
        self.signature.inputs.len() > 0 && self.signature.inputs[0] is Receiver
    }

    /// Whether this metadata marks a constructor.
    pub open spec fn is_constructor(&self) -> bool {
        self.impl_type is Some && self.signature.ident == "verieasy_new"@
    }

    /// Whether this metadata marks a getter.
    pub open spec fn is_getter(&self) -> bool {
        self.impl_type is Some && self.inputs_first_receiver() && self.signature.ident
            == "verieasy_get"@
    }
}

/// A function: its metadata and its textual body.
pub struct Function {
    /// Metadata of the function.
    pub metadata: FunctionMetadata,
    /// The body in textual form.
    pub body: String,
}

impl Function {
    /// Create a new function.
    pub fn new(metadata: FunctionMetadata, body: String) -> (r: Function)
        ensures
            r.metadata@ == metadata@,
            r.body@ == body@,
    {
        Function { metadata, body }
    }

    /// An explicit deep copy.
    pub fn duplicate(&self) -> (r: Function)
        ensures
            r.metadata@ == self.metadata@,
            r.body@ == self.body@,
    {
        Function { metadata: self.metadata.duplicate(), body: self.body.clone() }
    }
}

/// The mathematical value of a common function.
pub struct CommonV {
    /// The metadata value.
    pub metadata: MetadataV,
    /// Body text from the first source.
    pub body1: Seq<char>,
    /// Body text from the second source.
    pub body2: Seq<char>,
}

/// A function shared by the two sources: one metadata, two bodies.
pub struct CommonFunction {
    /// Metadata of the function.
    pub metadata: FunctionMetadata,
    /// Body from the first source.
    pub body1: String,
    /// Body from the second source.
    pub body2: String,
}

impl CommonFunction {
    /// The value of this common function.
    pub open spec fn view(&self) -> CommonV {
        CommonV { metadata: self.metadata@, body1: self.body1@, body2: self.body2@ }
    }

    /// Create a new common function.
    pub fn new(metadata: FunctionMetadata, body1: String, body2: String) -> (r: CommonFunction)
        ensures
            r.metadata@ == metadata@,
            r.body1@ == body1@,
            r.body2@ == body2@,
    {
        CommonFunction { metadata, body1, body2 }
    }

    /// The implementation type of this method.
    pub fn impl_type(&self) -> (r: &Type)
        requires
            self.metadata.impl_type is Some,
        ensures
            Some(r@) == opt_type_view(&self.metadata.impl_type),
    {
        match &self.metadata.impl_type {
            Some(t) => t,
            None => {
                proof {
                    assert(false);
                }
                unreached()
            },
        }
    }

    /// An explicit deep copy.
    pub fn duplicate(&self) -> (r: CommonFunction)
        ensures
            r.metadata@ == self.metadata@,
            r.body1@ == self.body1@,
            r.body2@ == self.body2@,
    {
        CommonFunction {
            metadata: self.metadata.duplicate(),
            body1: self.body1.clone(),
            body2: self.body2.clone(),
        }
    }
}

/// The name of the checker function derived from a precondition: the last
/// segment prefixed with `verieasy_pre_`; for a method the checker is called
/// on the state receiver, so the outer path is dropped.
pub open spec fn checker_name_spec(name: Seq<Seq<char>>, is_method: bool) -> Seq<Seq<char>>
    recommends
        name.len() > 0,
{
    let prefixed = "verieasy_pre_"@ + name.last();
    if is_method {
        seq![prefixed]
    } else {
        name.update(name.len() - 1, prefixed)
    }
}

/// A precondition attached to a function of the sources.
pub struct Precondition {
    /// Name of the original function the checker was derived from.
    pub name: Path,
    /// Implementation type, for methods.
    pub impl_type: Option<Type>,
}

impl Precondition {
    /// Construct from the path of the original function.  For a method with
    /// a qualified name, the impl type is parsed from the parent path.
    pub fn new(name: Path, is_method: bool) -> (r: Precondition)
        ensures
            r.name@ == name@,
            r.impl_type is Some <==> (is_method && name@.len() >= 2),
            is_method && name@.len() >= 2 ==> opt_type_view(&r.impl_type) == Some(
                crate::types::from_path_spec(name@.drop_last()),
            ),
    {
        let impl_type = if is_method {
            if name.0.len() >= 2 {
                let parent = match name.parent() {
                    Some(p) => p,
                    None => {
                        proof {
                            assert(false);
                        }
                        unreached()
                    },
                };
                Some(Type::from_path(parent))
            } else {
                None
            }
        } else {
            None
        };
        Precondition { name, impl_type }
    }

    /// The identifier of the original function.
    pub fn ident(&self) -> (r: String)
        requires
            self.name@.len() > 0,
        ensures
            r@ == self.name@.last(),
    {
        match self.name.last() {
            Some(s) => s.clone(),
            None => {
                proof {
                    assert(false);
                }
                unreached()
            },
        }
    }

    /// The name of the checker function.
    pub fn checker_name(&self) -> (r: Path)
        requires
            self.name@.len() > 0,
        ensures
            r@ == checker_name_spec(self.name@, self.impl_type is Some),
    {
        proof {
            reveal_strlit("verieasy_pre_");
        }
        let mut prefixed = String::new();
        prefixed.append("verieasy_pre_");
        prefixed.append(self.ident().as_str());
        if self.impl_type.is_some() {
            let mut segs: Vec<String> = Vec::new();
            segs.push(prefixed);
            let r = Path(segs);
            proof {
                assert(r@ =~= checker_name_spec(self.name@, true));
            }
            r
        } else {
            let mut segs = clone_segments(&self.name.0);
            let n = segs.len();
            segs.set(n - 1, prefixed);
            let r = Path(segs);
            proof {
                assert(r@ =~= checker_name_spec(self.name@, false));
            }
            r
        }
    }

    /// An explicit deep copy.
    pub fn duplicate(&self) -> (r: Precondition)
        ensures
            r.name@ == self.name@,
            opt_type_view(&r.impl_type) == opt_type_view(&self.impl_type),
            r.impl_type is Some <==> self.impl_type is Some,
    {
        Precondition { name: self.name.duplicate(), impl_type: duplicate_opt_type(&self.impl_type) }
    }
}

/// The checker name of a method precondition depends only on the last
/// segment of the original name; and for any precondition the last segment
/// of the checker name is the prefixed last segment of the original name.
pub proof fn lemma_checker_name_depends_on_last(
    a: Seq<Seq<char>>,
    b: Seq<Seq<char>>,
    is_method: bool,
)
    requires
        a.len() > 0,
        b.len() > 0,
        a.last() == b.last(),
    ensures
        is_method ==> checker_name_spec(a, true) == checker_name_spec(b, true),
        checker_name_spec(a, is_method).last() == "verieasy_pre_"@ + a.last(),
        checker_name_spec(b, is_method).last() == "verieasy_pre_"@ + a.last(),
{
    if is_method {
        assert(checker_name_spec(a, true) =~= checker_name_spec(b, true));
    }
}

} // verus!
