//! Element types and the type that two operands have in common.
use vstd::prelude::*;

verus! {

/// The type of an array's elements.
#[derive(Clone, Copy, Debug, PartialEq, Eq, Hash, Structural)]
pub enum Dtype {
    Bool,
    U8,
    U16,
    U32,
    U64,
    I8,
    I16,
    I32,
    I64,
    F16,
    F32,
    F64,
    BF16,
    Complex64,
}

/// The family of an element type.
#[derive(Clone, Copy, Debug, PartialEq, Eq, Structural)]
pub enum Kind {
    Bool,
    Unsigned,
    Signed,
    Float,
    Complex,
}

impl Dtype {
    /// The family of this type.
    pub open spec fn spec_kind(self) -> Kind {
        match self {
            Dtype::Bool => Kind::Bool,
            Dtype::U8 | Dtype::U16 | Dtype::U32 | Dtype::U64 => Kind::Unsigned,
            Dtype::I8 | Dtype::I16 | Dtype::I32 | Dtype::I64 => Kind::Signed,
            Dtype::F16 | Dtype::F32 | Dtype::F64 | Dtype::BF16 => Kind::Float,
            Dtype::Complex64 => Kind::Complex,
        }
    }

    /// The family of this type.
    #[verifier::when_used_as_spec(spec_kind)]
    pub fn kind(self) -> (k: Kind)
        ensures
            k == self.spec_kind(),
    {
        match self {
            Dtype::Bool => Kind::Bool,
            Dtype::U8 | Dtype::U16 | Dtype::U32 | Dtype::U64 => Kind::Unsigned,
            Dtype::I8 | Dtype::I16 | Dtype::I32 | Dtype::I64 => Kind::Signed,
            Dtype::F16 | Dtype::F32 | Dtype::F64 | Dtype::BF16 => Kind::Float,
            Dtype::Complex64 => Kind::Complex,
        }
    }

    /// The width of one element in bytes.
    pub open spec fn spec_width(self) -> u8 {
        match self {
            Dtype::Bool | Dtype::U8 | Dtype::I8 => 1,
            Dtype::U16 | Dtype::I16 | Dtype::F16 | Dtype::BF16 => 2,
            Dtype::U32 | Dtype::I32 | Dtype::F32 => 4,
            Dtype::U64 | Dtype::I64 | Dtype::F64 | Dtype::Complex64 => 8,
        }
    }

    /// The width of one element in bytes.
    #[verifier::when_used_as_spec(spec_width)]
    pub fn width(self) -> (w: u8)
        ensures
            w == self.spec_width(),
    {
        match self {
            Dtype::Bool | Dtype::U8 | Dtype::I8 => 1,
            Dtype::U16 | Dtype::I16 | Dtype::F16 | Dtype::BF16 => 2,
            Dtype::U32 | Dtype::I32 | Dtype::F32 => 4,
            Dtype::U64 | Dtype::I64 | Dtype::F64 | Dtype::Complex64 => 8,
        }
    }
}

/// The signed type of the given width, or `F32` where no integer is that wide.
pub open spec fn signed_of_width(w: int) -> Dtype {
    if w <= 1 {
        Dtype::I8
    } else if w <= 2 {
        Dtype::I16
    } else if w <= 4 {
        Dtype::I32
    } else if w <= 8 {
        Dtype::I64
    } else {
        Dtype::F32
    }
}

/// The type in which an operation on `a` and `b` is carried out: the complex
/// type over every other, a float over every integer, the wider of two of one
/// family, the two half-precision types meeting in `F32`, and an unsigned with
/// a signed integer in the smallest signed type that holds both.
pub open spec fn promoted(a: Dtype, b: Dtype) -> Dtype {
    if a == b {
        a
    } else if a.kind() == Kind::Complex || b.kind() == Kind::Complex {
        Dtype::Complex64
    } else if a.kind() == Kind::Float && b.kind() == Kind::Float {
        if a.width() == b.width() {
            Dtype::F32
        } else if a.width() > b.width() {
            a
        } else {
            b
        }
    } else if a.kind() == Kind::Float {
        a
    } else if b.kind() == Kind::Float {
        b
    } else if a.kind() == Kind::Bool {
        b
    } else if b.kind() == Kind::Bool {
        a
    } else if a.kind() == b.kind() {
        if a.width() > b.width() {
            a
        } else {
            b
        }
    } else {
        let (u, s) = if a.kind() == Kind::Unsigned {
            (a, b)
        } else {
            (b, a)
        };
        if s.width() > u.width() {
            s
        } else {
            signed_of_width(2 * u.width())
        }
    }
}

/// The type in which an operation on `a` and `b` is carried out.
pub fn promote(a: Dtype, b: Dtype) -> (r: Dtype)
    ensures
        r == promoted(a, b),
{
    if a == b {
        a
    } else if a.kind() == Kind::Complex || b.kind() == Kind::Complex {
        Dtype::Complex64
    } else if a.kind() == Kind::Float && b.kind() == Kind::Float {
        if a.width() == b.width() {
            Dtype::F32
        } else if a.width() > b.width() {
            a
        } else {
            b
        }
    } else if a.kind() == Kind::Float {
        a
    } else if b.kind() == Kind::Float {
        b
    } else if a.kind() == Kind::Bool {
        b
    } else if b.kind() == Kind::Bool {
        a
    } else if a.kind() == b.kind() {
        if a.width() > b.width() {
            a
        } else {
            b
        }
    } else {
        let (u, s) = if a.kind() == Kind::Unsigned {
            (a, b)
        } else {
            (b, a)
        };
        if s.width() > u.width() {
            s
        } else {
            match u.width() {
                1 => Dtype::I16,
                2 => Dtype::I32,
                4 => Dtype::I64,
                _ => Dtype::F32,
            }
        }
    }
}

/// The type a quotient of `a`s has: integers divide in `F32`.
pub open spec fn at_least_float(a: Dtype) -> Dtype {
    if a.kind() == Kind::Float || a.kind() == Kind::Complex {
        a
    } else {
        Dtype::F32
    }
}

/// The type a quotient of `a`s has.
pub fn float_of(a: Dtype) -> (r: Dtype)
    ensures
        r == at_least_float(a),
{
    if a.kind() == Kind::Float || a.kind() == Kind::Complex {
        a
    } else {
        Dtype::F32
    }
}

/// Promotion does not depend on the order of the operands.
pub proof fn promotion_symmetric(a: Dtype, b: Dtype)
    ensures
        promoted(a, b) == promoted(b, a),
{
}

/// Promotion loses neither operand: promoting the result with one of them
/// again changes nothing.
pub proof fn promotion_absorbs(a: Dtype, b: Dtype)
    ensures
        promoted(promoted(a, b), a) == promoted(a, b),
        promoted(promoted(a, b), b) == promoted(a, b),
{
}

/// Promotion loses no value that it need not: the complex type wins over every
/// other and a float over every integer; of two of one family the wider wins,
/// but the two half-precision types meet in `F32`; an unsigned and a signed
/// integer meet in a signed type that holds both, or in `F32` where there is
/// none.
pub proof fn promotion_holds_both(a: Dtype, b: Dtype)
    ensures
        ({
            let p = promoted(a, b);
            &&& a.kind() == Kind::Complex ==> p == Dtype::Complex64
            &&& a.kind() == Kind::Float && b.kind() != Kind::Float && b.kind() != Kind::Complex
                ==> p == a
            &&& a.kind() == Kind::Bool ==> p == b
            &&& a.kind() == b.kind() && a.width() > b.width() ==> p == a
            &&& a == Dtype::F16 && b == Dtype::BF16 ==> p == Dtype::F32
            &&& a.kind() == Kind::Unsigned && b.kind() == Kind::Signed && a != Dtype::U64
                ==> p.kind() == Kind::Signed && p.width() > a.width() && p.width() >= b.width() && (
            p.width() == b.width() || p.width() == 2 * a.width())
            &&& a == Dtype::U64 && b.kind() == Kind::Signed ==> p == Dtype::F32
        }),
{
}

/// Integers divide in `F32`, and every other type in itself.
pub proof fn only_integers_change_to_divide(a: Dtype)
    ensures
        a.kind() == Kind::Float || a.kind() == Kind::Complex ==> at_least_float(a) == a,
        a.kind() == Kind::Bool || a.kind() == Kind::Unsigned || a.kind() == Kind::Signed
            ==> at_least_float(a) == Dtype::F32,
{
}

} // verus!
