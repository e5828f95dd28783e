//! Resolved types.

use vstd::prelude::*;
use vstd::string::StringExecFns;

use crate::text::{concat, decimal, decimal_text};

verus! {

/// Handle of a user-defined struct type.
#[derive(Debug, Clone, Copy, PartialEq, Eq, Hash, Structural)]
pub struct StructId(pub u32);

/// Handle of a user-defined enum type.
#[derive(Debug, Clone, Copy, PartialEq, Eq, Hash, Structural)]
pub struct EnumId(pub u32);

/// Handle of a user-defined interface type.
#[derive(Debug, Clone, Copy, PartialEq, Eq, Hash, Structural)]
pub struct InterfaceId(pub u32);

/// A fully resolved SiliconScript type with concrete widths.
#[derive(Debug, PartialEq, Eq, Hash)]
pub enum Ty {
    /// Unsigned integer bit-vector of width `N`.
    UInt(u64),
    /// Signed (two's complement) integer bit-vector of width `N`.
    SInt(u64),
    /// Raw bit-vector with no arithmetic interpretation.
    Bits(u64),
    /// Fixed-point number: `int_bits` integer bits and `frac_bits` fractional bits.
    Fixed { int_bits: u64, frac_bits: u64 },
    /// Single-bit boolean (distinct from `UInt<1>`).
    Bool,
    /// Clock signal, with its frequency in Hz when known.
    Clock { freq: Option<u64> },
    /// Synchronous reset.
    SyncReset,
    /// Asynchronous reset.
    AsyncReset,
    /// Fixed-size homogeneous array.
    Array { element: Box<Ty>, size: u64 },
    /// User-defined struct.
    Struct(StructId),
    /// User-defined enum.
    Enum(EnumId),
    /// Named interface bundle.
    Interface(InterfaceId),
    /// Memory primitive (ROM/RAM).
    Memory { element: Box<Ty>, depth: u64 },
    /// Input direction wrapper.
    In(Box<Ty>),
    /// Output direction wrapper.
    Out(Box<Ty>),
    /// Bidirectional wrapper.
    InOut(Box<Ty>),
    /// Every port direction flipped.
    Flip(Box<Ty>),
    /// Unsized non-negative integer literal (before width inference).
    MetaUInt,
    /// Unsized signed integer literal (before width inference).
    MetaInt,
    /// Boolean literal type.
    MetaBool,
    /// Floating-point literal used in elaboration arithmetic.
    MetaFloat,
    /// String literal type.
    MetaString,
    /// The type of a type expression.
    MetaType,
    /// Error sentinel: carries a type error on without cascading.
    Error,
    /// Unit / no-value type.
    Void,
}

/// The hardware bit-width of a type, over the integers: `None` for meta,
/// error and void types and for user-defined aggregates.
pub open spec fn width_of(t: Ty) -> Option<int>
    decreases t,
{
    match t {
        Ty::UInt(n) => Some(n as int),
        Ty::SInt(n) => Some(n as int),
        Ty::Bits(n) => Some(n as int),
        Ty::Fixed { int_bits, frac_bits } => Some(int_bits + frac_bits),
        Ty::Bool => Some(1),
        Ty::Clock { .. } => Some(1),
        Ty::SyncReset => Some(1),
        Ty::AsyncReset => Some(1),
        Ty::Array { element, size } => match width_of(*element) {
            Some(w) => Some(w * size),
            None => None,
        },
        Ty::Memory { element, depth } => match width_of(*element) {
            Some(w) => Some(w * depth),
            None => None,
        },
        Ty::In(inner) => width_of(*inner),
        Ty::Out(inner) => width_of(*inner),
        Ty::InOut(inner) => width_of(*inner),
        Ty::Flip(inner) => width_of(*inner),
        _ => None,
    }
}

/// Every width computed for the type and its parts fits in a `u64`.
pub open spec fn width_fits(t: Ty) -> bool
    decreases t,
{
    match t {
        Ty::Fixed { int_bits, frac_bits } => int_bits + frac_bits <= u64::MAX,
        Ty::Array { element, size } => width_fits(*element) && match width_of(*element) {
            Some(w) => w * size <= u64::MAX,
            None => true,
        },
        Ty::Memory { element, depth } => width_fits(*element) && match width_of(*element) {
            Some(w) => w * depth <= u64::MAX,
            None => true,
        },
        Ty::In(inner) => width_fits(*inner),
        Ty::Out(inner) => width_fits(*inner),
        Ty::InOut(inner) => width_fits(*inner),
        Ty::Flip(inner) => width_fits(*inner),
        _ => true,
    }
}

/// A width is never negative.
proof fn lemma_width_nonneg(t: Ty)
    ensures
        width_of(t) matches Some(w) ==> w >= 0,
    decreases t,
{
    match t {
        Ty::Array { element, size } => {
            lemma_width_nonneg(*element);
            if let Some(w) = width_of(*element) {
                assert(w * size >= 0) by (nonlinear_arith)
                    requires
                        w >= 0,
                        size >= 0,
                ;
            }
        },
        Ty::Memory { element, depth } => {
            lemma_width_nonneg(*element);
            if let Some(w) = width_of(*element) {
                assert(w * depth >= 0) by (nonlinear_arith)
                    requires
                        w >= 0,
                        depth >= 0,
                ;
            }
        },
        Ty::In(inner) => lemma_width_nonneg(*inner),
        Ty::Out(inner) => lemma_width_nonneg(*inner),
        Ty::InOut(inner) => lemma_width_nonneg(*inner),
        Ty::Flip(inner) => lemma_width_nonneg(*inner),
        _ => {},
    }
}

/// The type as the compiler writes it in messages.
pub open spec fn ty_display(t: Ty) -> Seq<char>
    decreases t,
{
    match t {
        Ty::UInt(n) => "UInt<"@ + decimal_text(n as nat) + ">"@,
        Ty::SInt(n) => "SInt<"@ + decimal_text(n as nat) + ">"@,
        Ty::Bits(n) => "Bits<"@ + decimal_text(n as nat) + ">"@,
        Ty::Fixed { int_bits, frac_bits } => "Fixed<"@ + decimal_text(int_bits as nat) + ", "@
            + decimal_text(frac_bits as nat) + ">"@,
        Ty::Bool => "Bool"@,
        Ty::Clock { freq } => match freq {
            None => "Clock"@,
            Some(hz) => "Clock<"@ + decimal_text(hz as nat) + ">"@,
        },
        Ty::SyncReset => "SyncReset"@,
        Ty::AsyncReset => "AsyncReset"@,
        Ty::Array { element, size } => "["@ + ty_display(*element) + "; "@ + decimal_text(size as nat) + "]"@,
        Ty::Struct(StructId(id)) => "Struct#"@ + decimal_text(id as nat),
        Ty::Enum(EnumId(id)) => "Enum#"@ + decimal_text(id as nat),
        Ty::Interface(InterfaceId(id)) => "Interface#"@ + decimal_text(id as nat),
        Ty::Memory { element, depth } => "Memory<"@ + ty_display(*element) + ", "@ + decimal_text(depth as nat) + ">"@,
        Ty::In(inner) => "In<"@ + ty_display(*inner) + ">"@,
        Ty::Out(inner) => "Out<"@ + ty_display(*inner) + ">"@,
        Ty::InOut(inner) => "InOut<"@ + ty_display(*inner) + ">"@,
        Ty::Flip(inner) => "Flip<"@ + ty_display(*inner) + ">"@,
        Ty::MetaUInt => "MetaUInt"@,
        Ty::MetaInt => "MetaInt"@,
        Ty::MetaBool => "MetaBool"@,
        Ty::MetaFloat => "MetaFloat"@,
        Ty::MetaString => "MetaString"@,
        Ty::MetaType => "MetaType"@,
        Ty::Error => "<error>"@,
        Ty::Void => "Void"@,
    }
}

/// `text` between `open` and `close`.
fn wrap(open: &str, text: &str, close: &str) -> (r: String)
    ensures
        r@ == open@ + text@ + close@,
{
    concat(concat(open, text).as_str(), close)
}

impl Ty {
    /// A copy of the type.
    pub fn duplicate(&self) -> (r: Ty)
        ensures
            r == *self,
        decreases self,
    {
        match self {
            Ty::UInt(n) => Ty::UInt(*n),
            Ty::SInt(n) => Ty::SInt(*n),
            Ty::Bits(n) => Ty::Bits(*n),
            Ty::Fixed { int_bits, frac_bits } => Ty::Fixed { int_bits: *int_bits, frac_bits: *frac_bits },
            Ty::Bool => Ty::Bool,
            Ty::Clock { freq } => Ty::Clock { freq: *freq },
            Ty::SyncReset => Ty::SyncReset,
            Ty::AsyncReset => Ty::AsyncReset,
            Ty::Array { element, size } => Ty::Array { element: Box::new(element.duplicate()), size: *size },
            Ty::Struct(id) => Ty::Struct(*id),
            Ty::Enum(id) => Ty::Enum(*id),
            Ty::Interface(id) => Ty::Interface(*id),
            Ty::Memory { element, depth } => Ty::Memory { element: Box::new(element.duplicate()), depth: *depth },
            Ty::In(inner) => Ty::In(Box::new(inner.duplicate())),
            Ty::Out(inner) => Ty::Out(Box::new(inner.duplicate())),
            Ty::InOut(inner) => Ty::InOut(Box::new(inner.duplicate())),
            Ty::Flip(inner) => Ty::Flip(Box::new(inner.duplicate())),
            Ty::MetaUInt => Ty::MetaUInt,
            Ty::MetaInt => Ty::MetaInt,
            Ty::MetaBool => Ty::MetaBool,
            Ty::MetaFloat => Ty::MetaFloat,
            Ty::MetaString => Ty::MetaString,
            Ty::MetaType => Ty::MetaType,
            Ty::Error => Ty::Error,
            Ty::Void => Ty::Void,
        }
    }

    /// Are the two types equal?
    pub fn same_as(&self, other: &Ty) -> (r: bool)
        ensures
            r == (*self == *other),
        decreases self,
    {
        match (self, other) {
            (Ty::UInt(a), Ty::UInt(b)) => *a == *b,
            (Ty::SInt(a), Ty::SInt(b)) => *a == *b,
            (Ty::Bits(a), Ty::Bits(b)) => *a == *b,
            (Ty::Fixed { int_bits: a1, frac_bits: a2 }, Ty::Fixed { int_bits: b1, frac_bits: b2 }) => *a1
                == *b1 && *a2 == *b2,
            (Ty::Bool, Ty::Bool) => true,
            (Ty::Clock { freq: a }, Ty::Clock { freq: b }) => match (a, b) {
                (Some(x), Some(y)) => *x == *y,
                (None, None) => true,
                _ => false,
            },
            (Ty::SyncReset, Ty::SyncReset) => true,
            (Ty::AsyncReset, Ty::AsyncReset) => true,
            (Ty::Array { element: e1, size: s1 }, Ty::Array { element: e2, size: s2 }) => *s1 == *s2
                && e1.same_as(e2),
            (Ty::Struct(a), Ty::Struct(b)) => a.0 == b.0,
            (Ty::Enum(a), Ty::Enum(b)) => a.0 == b.0,
            (Ty::Interface(a), Ty::Interface(b)) => a.0 == b.0,
            (Ty::Memory { element: e1, depth: d1 }, Ty::Memory { element: e2, depth: d2 }) => *d1 == *d2
                && e1.same_as(e2),
            (Ty::In(a), Ty::In(b)) => a.same_as(b),
            (Ty::Out(a), Ty::Out(b)) => a.same_as(b),
            (Ty::InOut(a), Ty::InOut(b)) => a.same_as(b),
            (Ty::Flip(a), Ty::Flip(b)) => a.same_as(b),
            (Ty::MetaUInt, Ty::MetaUInt) => true,
            (Ty::MetaInt, Ty::MetaInt) => true,
            (Ty::MetaBool, Ty::MetaBool) => true,
            (Ty::MetaFloat, Ty::MetaFloat) => true,
            (Ty::MetaString, Ty::MetaString) => true,
            (Ty::MetaType, Ty::MetaType) => true,
            (Ty::Error, Ty::Error) => true,
            (Ty::Void, Ty::Void) => true,
            _ => false,
        }
    }

    /// The hardware bit-width of the type: `None` for meta types, the error
    /// sentinel, user-defined aggregates (width unknown from the tag alone)
    /// and `Void`.
    pub fn bit_width(&self) -> (r: Option<u64>)
        requires
            width_fits(*self),
        ensures
            match width_of(*self) {
                Some(w) => r == Some(w as u64) && w == r->0,
                None => r is None,
            },
        decreases self,
    {
        proof {
            lemma_width_nonneg(*self);
        }
        match self {
            Ty::UInt(n) | Ty::SInt(n) | Ty::Bits(n) => Some(*n),
            Ty::Fixed { int_bits, frac_bits } => Some(*int_bits + *frac_bits),
            Ty::Bool | Ty::Clock { .. } | Ty::SyncReset | Ty::AsyncReset => Some(1),
            Ty::Array { element, size } => match element.bit_width() {
                Some(w) => Some(w * *size),
                None => None,
            },
            Ty::Memory { element, depth } => match element.bit_width() {
                Some(w) => Some(w * *depth),
                None => None,
            },
            Ty::In(inner) | Ty::Out(inner) | Ty::InOut(inner) | Ty::Flip(inner) => inner.bit_width(),
            _ => None,
        }
    }

    /// Supports arithmetic: `UInt`, `SInt`, `Bits`, `Fixed`.
    pub fn is_numeric(&self) -> (r: bool)
        ensures
            r == (self is UInt || self is SInt || self is Bits || self is Fixed),
    {
        match self {
            Ty::UInt(_) | Ty::SInt(_) | Ty::Bits(_) | Ty::Fixed { .. } => true,
            _ => false,
        }
    }

    /// A signed or unsigned integer type.
    pub fn is_integer(&self) -> (r: bool)
        ensures
            r == (self is UInt || self is SInt),
    {
        match self {
            Ty::UInt(_) | Ty::SInt(_) => true,
            _ => false,
        }
    }

    /// Maps to synthesizable hardware: everything but the meta types, the
    /// error sentinel and `Void`.
    pub fn is_synthesizable(&self) -> (r: bool)
        ensures
            r == !(self is MetaUInt || self is MetaInt || self is MetaBool || self is MetaFloat
                || self is MetaString || self is MetaType || self is Error || self is Void),
    {
        match self {
            Ty::MetaUInt | Ty::MetaInt | Ty::MetaBool | Ty::MetaFloat | Ty::MetaString | Ty::MetaType
            | Ty::Error | Ty::Void => false,
            _ => true,
        }
    }

    /// A compile-time-only meta type.
    pub fn is_meta(&self) -> (r: bool)
        ensures
            r == (self is MetaUInt || self is MetaInt || self is MetaBool || self is MetaFloat
                || self is MetaString || self is MetaType),
    {
        match self {
            Ty::MetaUInt | Ty::MetaInt | Ty::MetaBool | Ty::MetaFloat | Ty::MetaString | Ty::MetaType => true,
            _ => false,
        }
    }

    /// The error sentinel.
    pub fn is_error(&self) -> (r: bool)
        ensures
            r == (self is Error),
    {
        match self {
            Ty::Error => true,
            _ => false,
        }
    }

    /// One layer of direction wrapper (`In`, `Out`, `InOut`, `Flip`)
    /// stripped; any other type unchanged.
    pub fn unwrap_direction(&self) -> (r: &Ty)
        ensures
            *r == match *self {
                Ty::In(inner) => *inner,
                Ty::Out(inner) => *inner,
                Ty::InOut(inner) => *inner,
                Ty::Flip(inner) => *inner,
                other => other,
            },
    {
        match self {
            Ty::In(inner) | Ty::Out(inner) | Ty::InOut(inner) | Ty::Flip(inner) => inner,
            other => other,
        }
    }

    /// The type as text, as the compiler writes it in messages.
    pub fn to_string(&self) -> (r: String)
        ensures
            r@ == ty_display(*self),
        decreases self,
    {
        match self {
            Ty::UInt(n) => wrap("UInt<", decimal(*n as u128).as_str(), ">"),
            Ty::SInt(n) => wrap("SInt<", decimal(*n as u128).as_str(), ">"),
            Ty::Bits(n) => wrap("Bits<", decimal(*n as u128).as_str(), ">"),
            Ty::Fixed { int_bits, frac_bits } => {
                let s = concat("Fixed<", decimal(*int_bits as u128).as_str());
                let s = concat(s.as_str(), ", ");
                let s = concat(s.as_str(), decimal(*frac_bits as u128).as_str());
                concat(s.as_str(), ">")
            },
            Ty::Bool => String::from_str("Bool"),
            Ty::Clock { freq } => match freq {
                None => String::from_str("Clock"),
                Some(hz) => wrap("Clock<", decimal(*hz as u128).as_str(), ">"),
            },
            Ty::SyncReset => String::from_str("SyncReset"),
            Ty::AsyncReset => String::from_str("AsyncReset"),
            Ty::Array { element, size } => {
                let s = concat("[", element.to_string().as_str());
                let s = concat(s.as_str(), "; ");
                let s = concat(s.as_str(), decimal(*size as u128).as_str());
                concat(s.as_str(), "]")
            },
            Ty::Struct(id) => concat("Struct#", decimal(id.0 as u128).as_str()),
            Ty::Enum(id) => concat("Enum#", decimal(id.0 as u128).as_str()),
            Ty::Interface(id) => concat("Interface#", decimal(id.0 as u128).as_str()),
            Ty::Memory { element, depth } => {
                let s = concat("Memory<", element.to_string().as_str());
                let s = concat(s.as_str(), ", ");
                let s = concat(s.as_str(), decimal(*depth as u128).as_str());
                concat(s.as_str(), ">")
            },
            Ty::In(inner) => wrap("In<", inner.to_string().as_str(), ">"),
            Ty::Out(inner) => wrap("Out<", inner.to_string().as_str(), ">"),
            Ty::InOut(inner) => wrap("InOut<", inner.to_string().as_str(), ">"),
            Ty::Flip(inner) => wrap("Flip<", inner.to_string().as_str(), ">"),
            Ty::MetaUInt => String::from_str("MetaUInt"),
            Ty::MetaInt => String::from_str("MetaInt"),
            Ty::MetaBool => String::from_str("MetaBool"),
            Ty::MetaFloat => String::from_str("MetaFloat"),
            Ty::MetaString => String::from_str("MetaString"),
            Ty::MetaType => String::from_str("MetaType"),
            Ty::Error => String::from_str("<error>"),
            Ty::Void => String::from_str("Void"),
        }
    }
}

} // verus!
