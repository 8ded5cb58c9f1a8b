//! WebAssembly function and value types.

use crate::const_expr::{heap_code, heap_type_code};
use crate::encoding::{sleb, write_i64};
use crate::error::{Error, Unsupported};
use crate::ids::TypeId;
use vstd::prelude::*;
use vstd::string::StringExecFns;

verus! {

/// A value type.
#[derive(Clone, Copy, Debug, PartialEq, Eq, Structural, Hash, PartialOrd, Ord)]
pub enum ValType {
    /// 32-bit integer.
    I32,
    /// 64-bit integer.
    I64,
    /// 32-bit float.
    F32,
    /// 64-bit float.
    F64,
    /// 128-bit vector.
    V128,
    /// Reference.
    Ref(RefType),
}

/// A reference type.
#[derive(Clone, Copy, Debug, PartialEq, Eq, Structural, Hash, PartialOrd, Ord)]
pub struct RefType {
    /// Whether this reference type is nullable.
    pub nullable: bool,
    /// The heap type that this reference points to.
    pub heap_type: HeapType,
}

/// The heap type that a reference points to.
#[derive(Clone, Copy, Debug, PartialEq, Eq, Structural, Hash, PartialOrd, Ord)]
pub enum HeapType {
    Abstract(AbstractHeapType),
    Concrete(u32),
}

/// The heap types that the binary format names without a type index.
#[derive(Clone, Copy, Debug, PartialEq, Eq, Structural, Hash, PartialOrd, Ord)]
pub enum AbstractHeapType {
    Func,
    Extern,
    Any,
    /// The bottom of the `any` hierarchy, written `none` in the text format.
    NoneType,
    NoExtern,
    NoFunc,
    Eq,
    Struct,
    Array,
    I31,
    Exn,
    NoExn,
}

impl RefType {
    /// The nullable reference to the abstract heap type `h`.
    pub open spec fn nullable_abstract(h: AbstractHeapType) -> RefType {
        RefType { nullable: true, heap_type: HeapType::Abstract(h) }
    }

    /// The `anyref` type of WebAssembly.
    pub fn anyref() -> (r: RefType)
        ensures
            r == Self::nullable_abstract(AbstractHeapType::Any),
    {
        RefType { nullable: true, heap_type: HeapType::Abstract(AbstractHeapType::Any) }
    }

    /// The `eqref` type of WebAssembly.
    pub fn eqref() -> (r: RefType)
        ensures
            r == Self::nullable_abstract(AbstractHeapType::Eq),
    {
        RefType { nullable: true, heap_type: HeapType::Abstract(AbstractHeapType::Eq) }
    }

    /// The `funcref` type of WebAssembly.
    pub fn funcref() -> (r: RefType)
        ensures
            r == Self::nullable_abstract(AbstractHeapType::Func),
    {
        RefType { nullable: true, heap_type: HeapType::Abstract(AbstractHeapType::Func) }
    }

    /// The `externref` type of WebAssembly.
    pub fn externref() -> (r: RefType)
        ensures
            r == Self::nullable_abstract(AbstractHeapType::Extern),
    {
        RefType { nullable: true, heap_type: HeapType::Abstract(AbstractHeapType::Extern) }
    }

    /// The `i31ref` type of WebAssembly.
    pub fn i31ref() -> (r: RefType)
        ensures
            r == Self::nullable_abstract(AbstractHeapType::I31),
    {
        RefType { nullable: true, heap_type: HeapType::Abstract(AbstractHeapType::I31) }
    }

    /// The `arrayref` type of WebAssembly.
    pub fn arrayref() -> (r: RefType)
        ensures
            r == Self::nullable_abstract(AbstractHeapType::Array),
    {
        RefType { nullable: true, heap_type: HeapType::Abstract(AbstractHeapType::Array) }
    }

    /// The `exnref` type of WebAssembly.
    pub fn exnref() -> (r: RefType)
        ensures
            r == Self::nullable_abstract(AbstractHeapType::Exn),
    {
        RefType { nullable: true, heap_type: HeapType::Abstract(AbstractHeapType::Exn) }
    }
}

/// A function type.
#[derive(Debug, Clone)]
pub struct Type {
    id: TypeId,
    params: Vec<ValType>,
    results: Vec<ValType>,
    /// Whether this type only describes a multi-value block entry; such types
    /// are kept out of the emitted type section.
    is_for_function_entry: bool,
    /// An optional name for debugging.
    pub name: Option<String>,
}

/// Element-wise equality of two value-type lists.
pub(crate) fn same_val_types(a: &[ValType], b: &[ValType]) -> (r: bool)
    ensures
        r == (a@ == b@),
{
    if a.len() != b.len() {
        return false;
    }
    let mut i: usize = 0;
    while i < a.len()
        invariant
            a@.len() == b@.len(),
            i <= a@.len(),
            a@.subrange(0, i as int) == b@.subrange(0, i as int),
        decreases a@.len() - i,
    {
        if a[i] != b[i] {
            assert(a@[i as int] != b@[i as int]);
            return false;
        }
        assert(a@.subrange(0, i + 1) =~= a@.subrange(0, i as int).push(a@[i as int]));
        assert(b@.subrange(0, i + 1) =~= b@.subrange(0, i as int).push(b@[i as int]));
        i += 1;
    }
    assert(a@ =~= a@.subrange(0, i as int));
    assert(b@ =~= b@.subrange(0, i as int));
    true
}

/// A copy of a list of value types.
pub(crate) fn copy_val_types(a: &[ValType]) -> (r: Vec<ValType>)
    ensures
        r@ == a@,
{
    let mut r: Vec<ValType> = Vec::new();
    let mut i: usize = 0;
    while i < a.len()
        invariant
            i <= a@.len(),
            r@ == a@.subrange(0, i as int),
        decreases a@.len() - i,
    {
        r.push(a[i]);
        i += 1;
        assert(r@ =~= a@.subrange(0, i as int));
    }
    assert(a@ =~= a@.subrange(0, i as int));
    r
}

impl Type {
    pub closed spec fn spec_id(&self) -> TypeId {
        self.id
    }

    pub closed spec fn spec_params(&self) -> Seq<ValType> {
        self.params@
    }

    pub closed spec fn spec_results(&self) -> Seq<ValType> {
        self.results@
    }

    pub closed spec fn spec_is_for_function_entry(&self) -> bool {
        self.is_for_function_entry
    }

    pub closed spec fn spec_name(&self) -> Option<String> {
        self.name
    }

    /// Two types are equal when their signatures and their entry flags are;
    /// the identifier and the debug name do not count.
    pub open spec fn same_as(&self, o: &Type) -> bool {
        &&& self.spec_params() == o.spec_params()
        &&& self.spec_results() == o.spec_results()
        &&& self.spec_is_for_function_entry() == o.spec_is_for_function_entry()
    }

    /// A function type.
    pub(crate) fn new(id: TypeId, params: Vec<ValType>, results: Vec<ValType>) -> (r: Type)
        ensures
            r.spec_id() == id,
            r.spec_params() == params@,
            r.spec_results() == results@,
            !r.spec_is_for_function_entry(),
            r.spec_name() is None,
    {
        Type { id, params, results, is_for_function_entry: false, name: None }
    }

    /// A type for a multi-value function entry block.
    pub(crate) fn for_function_entry(id: TypeId, results: Vec<ValType>) -> (r: Type)
        ensures
            r.spec_id() == id,
            r.spec_params() == Seq::<ValType>::empty(),
            r.spec_results() == results@,
            r.spec_is_for_function_entry(),
            r.spec_name() is None,
    {
        Type { id, params: Vec::new(), results, is_for_function_entry: true, name: None }
    }

    /// Get the id of this type.
    pub fn id(&self) -> (r: TypeId)
        ensures
            r == self.spec_id(),
    {
        self.id
    }

    /// Get the parameters to this function type.
    pub fn params(&self) -> (r: &[ValType])
        ensures
            r@ == self.spec_params(),
    {
        self.params.as_slice()
    }

    /// Get the results of this function type.
    pub fn results(&self) -> (r: &[ValType])
        ensures
            r@ == self.spec_results(),
    {
        self.results.as_slice()
    }

    /// Whether this type only describes a multi-value block entry.
    pub fn is_for_function_entry(&self) -> (r: bool)
        ensures
            r == self.spec_is_for_function_entry(),
    {
        self.is_for_function_entry
    }
}

impl PartialEq for Type {
    fn eq(&self, rhs: &Type) -> (r: bool) {
        same_val_types(self.params.as_slice(), rhs.params.as_slice())
            && same_val_types(self.results.as_slice(), rhs.results.as_slice())
            && self.is_for_function_entry == rhs.is_for_function_entry
    }
}

impl vstd::std_specs::cmp::PartialEqSpecImpl for Type {
    open spec fn obeys_eq_spec() -> bool {
        true
    }

    open spec fn eq_spec(&self, rhs: &Type) -> bool {
        self.same_as(rhs)
    }
}

impl Eq for Type {
}

/// The decimal digits of `n`.
pub open spec fn decimal_text(n: nat) -> Seq<char>
    decreases n,
{
    if n < 10 {
        seq![digit_char(n)]
    } else {
        decimal_text(n / 10) + seq![digit_char(n % 10)]
    }
}

pub open spec fn digit_char(d: nat) -> char {
    if d == 0 { '0' } else if d == 1 { '1' } else if d == 2 { '2' } else if d == 3 { '3' } else if d == 4 { '4' }
    else if d == 5 { '5' } else if d == 6 { '6' } else if d == 7 { '7' } else if d == 8 { '8' } else { '9' }
}

/// Relies on std's `format!` of a `u32` with `{}`: its decimal digits.
#[verifier::external_body]
fn decimal(n: u32) -> (r: String)
    ensures
        r@ == decimal_text(n as nat),
{
    format!("{n}")
}

/// The name of an abstract heap type in the text format.
pub open spec fn abstract_heap_name(a: AbstractHeapType) -> Seq<char> {
    match a {
        AbstractHeapType::Func => "func"@,
        AbstractHeapType::Extern => "extern"@,
        AbstractHeapType::Any => "any"@,
        AbstractHeapType::NoneType => "none"@,
        AbstractHeapType::NoExtern => "noextern"@,
        AbstractHeapType::NoFunc => "nofunc"@,
        AbstractHeapType::Eq => "eq"@,
        AbstractHeapType::Struct => "struct"@,
        AbstractHeapType::Array => "array"@,
        AbstractHeapType::I31 => "i31"@,
        AbstractHeapType::Exn => "exn"@,
        AbstractHeapType::NoExn => "noexn"@,
    }
}

/// How a heap type is shown: its name, or its type index.
pub open spec fn heap_type_text(h: HeapType) -> Seq<char> {
    match h {
        HeapType::Abstract(a) => abstract_heap_name(a),
        HeapType::Concrete(i) => decimal_text(i as nat),
    }
}

/// How a value type is shown. A non-nullable reference is shown with
/// `ref null` and a nullable one with `ref`.
pub open spec fn val_type_text(v: ValType) -> Seq<char> {
    match v {
        ValType::I32 => "i32"@,
        ValType::I64 => "i64"@,
        ValType::F32 => "f32"@,
        ValType::F64 => "f64"@,
        ValType::V128 => "v128"@,
        ValType::Ref(r) => if r.nullable {
            "ref "@ + heap_type_text(r.heap_type)
        } else {
            "ref null "@ + heap_type_text(r.heap_type)
        },
    }
}

impl AbstractHeapType {
    /// The name of this heap type in the text format.
    pub fn name(&self) -> (r: &'static str)
        ensures
            r@ == abstract_heap_name(*self),
    {
        match self {
            AbstractHeapType::Func => "func",
            AbstractHeapType::Extern => "extern",
            AbstractHeapType::Any => "any",
            AbstractHeapType::NoneType => "none",
            AbstractHeapType::NoExtern => "noextern",
            AbstractHeapType::NoFunc => "nofunc",
            AbstractHeapType::Eq => "eq",
            AbstractHeapType::Struct => "struct",
            AbstractHeapType::Array => "array",
            AbstractHeapType::I31 => "i31",
            AbstractHeapType::Exn => "exn",
            AbstractHeapType::NoExn => "noexn",
        }
    }
}

impl HeapType {
    /// This heap type as text: its name, or its type index in decimal.
    pub fn to_string(&self) -> (r: String)
        ensures
            r@ == heap_type_text(*self),
    {
        match self {
            HeapType::Abstract(a) => a.name().to_owned(),
            HeapType::Concrete(i) => decimal(*i),
        }
    }
}

impl ValType {
    /// This value type as text.
    pub fn to_string(&self) -> (r: String)
        ensures
            r@ == val_type_text(*self),
    {
        match self {
            ValType::I32 => "i32".to_owned(),
            ValType::I64 => "i64".to_owned(),
            ValType::F32 => "f32".to_owned(),
            ValType::F64 => "f64".to_owned(),
            ValType::V128 => "v128".to_owned(),
            ValType::Ref(r) => {
                let h = r.heap_type.to_string();
                let mut t = if r.nullable {
                    "ref ".to_owned()
                } else {
                    "ref null ".to_owned()
                };
                t.append(h.as_str());
                t
            },
        }
    }
}

/// The encoding of a value type.
pub open spec fn val_type_bytes(v: ValType) -> Seq<u8> {
    match v {
        ValType::I32 => seq![0x7Fu8],
        ValType::I64 => seq![0x7Eu8],
        ValType::F32 => seq![0x7Du8],
        ValType::F64 => seq![0x7Cu8],
        ValType::V128 => seq![0x7Bu8],
        ValType::Ref(r) => match r.heap_type {
            HeapType::Abstract(a) => if r.nullable {
                seq![heap_code(a)]
            } else {
                seq![0x64u8, heap_code(a)]
            },
            HeapType::Concrete(i) => seq![if r.nullable { 0x63u8 } else { 0x64u8 }] + sleb(i as int),
        },
    }
}

/// Appends the encoding of a value type.
pub(crate) fn write_val_type(v: ValType, sink: &mut Vec<u8>)
    ensures
        final(sink)@ == old(sink)@ + val_type_bytes(v),
{
    let ghost start = sink@;
    match v {
        ValType::I32 => sink.push(0x7F),
        ValType::I64 => sink.push(0x7E),
        ValType::F32 => sink.push(0x7D),
        ValType::F64 => sink.push(0x7C),
        ValType::V128 => sink.push(0x7B),
        ValType::Ref(r) => match r.heap_type {
            HeapType::Abstract(a) => {
                if !r.nullable {
                    sink.push(0x64);
                }
                sink.push(heap_type_code(a));
            },
            HeapType::Concrete(i) => {
                sink.push(if r.nullable { 0x63 } else { 0x64 });
                write_i64(i as i64, sink);
            },
        },
    }
    assert(sink@ =~= start + val_type_bytes(v));
}

/// An abstract heap type as the binary format can name it, including those
/// of the stack-switching proposal.
#[derive(Clone, Copy, Debug, PartialEq, Eq, Structural)]
pub enum DecodedAbstractHeapType {
    Func,
    Extern,
    Any,
    NoneType,
    NoExtern,
    NoFunc,
    Eq,
    Struct,
    Array,
    I31,
    Exn,
    NoExn,
    Cont,
    NoCont,
}

/// The library's heap type for a decoded one; the stack-switching types are
/// not supported.
pub open spec fn from_decoded(a: DecodedAbstractHeapType) -> Result<AbstractHeapType, Error> {
    match a {
        DecodedAbstractHeapType::Func => Ok(AbstractHeapType::Func),
        DecodedAbstractHeapType::Extern => Ok(AbstractHeapType::Extern),
        DecodedAbstractHeapType::Any => Ok(AbstractHeapType::Any),
        DecodedAbstractHeapType::NoneType => Ok(AbstractHeapType::NoneType),
        DecodedAbstractHeapType::NoExtern => Ok(AbstractHeapType::NoExtern),
        DecodedAbstractHeapType::NoFunc => Ok(AbstractHeapType::NoFunc),
        DecodedAbstractHeapType::Eq => Ok(AbstractHeapType::Eq),
        DecodedAbstractHeapType::Struct => Ok(AbstractHeapType::Struct),
        DecodedAbstractHeapType::Array => Ok(AbstractHeapType::Array),
        DecodedAbstractHeapType::I31 => Ok(AbstractHeapType::I31),
        DecodedAbstractHeapType::Exn => Ok(AbstractHeapType::Exn),
        DecodedAbstractHeapType::NoExn => Ok(AbstractHeapType::NoExn),
        DecodedAbstractHeapType::Cont | DecodedAbstractHeapType::NoCont => Err(
            Error::UnsupportedFeature(Unsupported::StackSwitching),
        ),
    }
}

impl AbstractHeapType {
    /// The library's heap type for a decoded one; the stack-switching types
    /// are not supported.
    pub fn try_from_decoded(a: DecodedAbstractHeapType) -> (r: Result<AbstractHeapType, Error>)
        ensures
            r == from_decoded(a),
    {
        match a {
            DecodedAbstractHeapType::Func => Ok(AbstractHeapType::Func),
            DecodedAbstractHeapType::Extern => Ok(AbstractHeapType::Extern),
            DecodedAbstractHeapType::Any => Ok(AbstractHeapType::Any),
            DecodedAbstractHeapType::NoneType => Ok(AbstractHeapType::NoneType),
            DecodedAbstractHeapType::NoExtern => Ok(AbstractHeapType::NoExtern),
            DecodedAbstractHeapType::NoFunc => Ok(AbstractHeapType::NoFunc),
            DecodedAbstractHeapType::Eq => Ok(AbstractHeapType::Eq),
            DecodedAbstractHeapType::Struct => Ok(AbstractHeapType::Struct),
            DecodedAbstractHeapType::Array => Ok(AbstractHeapType::Array),
            DecodedAbstractHeapType::I31 => Ok(AbstractHeapType::I31),
            DecodedAbstractHeapType::Exn => Ok(AbstractHeapType::Exn),
            DecodedAbstractHeapType::NoExn => Ok(AbstractHeapType::NoExn),
            DecodedAbstractHeapType::Cont | DecodedAbstractHeapType::NoCont => Err(
                Error::UnsupportedFeature(Unsupported::StackSwitching),
            ),
        }
    }
}

} // verus!
