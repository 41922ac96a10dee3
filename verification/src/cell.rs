//! Tagged cell references.
//!
//! A `Cell` is a 32-bit tagged reference: non-negative values index the
//! node pool, while negative values are either singleton constants
//! (empty list, true, end of input, ...) or type discriminators used to
//! label atom payloads.

use vstd::prelude::*;

verus! {

/// A tagged reference: a node-pool index when non-negative, a singleton
/// constant or type discriminator when negative.
#[derive(Debug, Clone, Copy, PartialEq, Eq, Structural)]
pub struct Cell(pub i32);

/// Singleton constants that a `Cell` can denote without pointing into
/// the node pool.
#[derive(Debug, Clone, Copy, PartialEq, Eq, Structural)]
pub enum SpecialObject {
    Nil,
    True,
    EofMark,
    Undef,
    RParen,
    Dot,
}

/// Discriminators stored in the `car` of an atom node to label the kind
/// of payload held in its `cdr`.
#[derive(Debug, Clone, Copy, PartialEq, Eq, Structural)]
pub enum TypeTag {
    Bytecode,
    Catchtag,
    Char,
    Closure,
    Fixnum,
    Inport,
    Outport,
    String,
    Symbol,
    Vector,
}

impl SpecialObject {
    /// The raw cell value that denotes this singleton.
    pub open spec fn spec_code(self) -> i32 {
        match self {
            SpecialObject::Nil => -1i32,
            SpecialObject::True => -2i32,
            SpecialObject::EofMark => -3i32,
            SpecialObject::Undef => -4i32,
            SpecialObject::RParen => -5i32,
            SpecialObject::Dot => -6i32,
        }
    }

    /// The raw cell value that denotes this singleton.
    pub fn code(self) -> (r: i32)
        ensures
            r == self.spec_code(),
    {
        match self {
            SpecialObject::Nil => -1,
            SpecialObject::True => -2,
            SpecialObject::EofMark => -3,
            SpecialObject::Undef => -4,
            SpecialObject::RParen => -5,
            SpecialObject::Dot => -6,
        }
    }
}

impl TypeTag {
    /// The raw cell value of this type discriminator.
    pub open spec fn spec_code(self) -> i32 {
        match self {
            TypeTag::Bytecode => -10i32,
            TypeTag::Catchtag => -11i32,
            TypeTag::Char => -12i32,
            TypeTag::Closure => -13i32,
            TypeTag::Fixnum => -14i32,
            TypeTag::Inport => -15i32,
            TypeTag::Outport => -16i32,
            TypeTag::String => -17i32,
            TypeTag::Symbol => -18i32,
            TypeTag::Vector => -19i32,
        }
    }

    /// The raw cell value of this type discriminator.
    pub fn code(self) -> (r: i32)
        ensures
            r == self.spec_code(),
    {
        match self {
            TypeTag::Bytecode => -10,
            TypeTag::Catchtag => -11,
            TypeTag::Char => -12,
            TypeTag::Closure => -13,
            TypeTag::Fixnum => -14,
            TypeTag::Inport => -15,
            TypeTag::Outport => -16,
            TypeTag::String => -17,
            TypeTag::Symbol => -18,
            TypeTag::Vector => -19,
        }
    }
}

impl Cell {
    /// Wrap a raw 32-bit value.
    pub fn new(value: i32) -> (r: Self)
        ensures
            r.0 == value,
    {
        Cell(value)
    }

    /// The cell denoting the given singleton constant.
    pub fn special(obj: SpecialObject) -> (r: Self)
        ensures
            r.0 == obj.spec_code(),
    {
        Cell(obj.code())
    }

    /// The cell holding the given type discriminator.
    pub fn type_tag(tag: TypeTag) -> (r: Self)
        ensures
            r.0 == tag.spec_code(),
    {
        Cell(tag.code())
    }

    /// True when the cell does not index the node pool.
    pub open spec fn spec_is_special(self) -> bool {
        self.0 < 0
    }

    /// True when the cell does not index the node pool.
    pub fn is_special(&self) -> (r: bool)
        ensures
            r == self.spec_is_special(),
    {
        self.0 < 0
    }

    /// True when the cell is one of the type discriminators.
    pub open spec fn spec_is_type_tag(self) -> bool {
        -19 <= self.0 <= -10
    }

    /// True when the cell is one of the type discriminators.
    pub fn is_type_tag(&self) -> (r: bool)
        ensures
            r == self.spec_is_type_tag(),
    {
        -19 <= self.0 && self.0 <= -10
    }

    /// The raw 32-bit value.
    pub fn value(&self) -> (r: i32)
        ensures
            r == self.0,
    {
        self.0
    }

    /// Decode the cell as a singleton constant, if it is one.
    pub fn as_special(&self) -> (r: Option<SpecialObject>)
        ensures
            match r {
                Some(obj) => self.0 == obj.spec_code(),
                None => forall|obj: SpecialObject| self.0 != obj.spec_code(),
            },
    {
        match self.0 {
            -1 => Some(SpecialObject::Nil),
            -2 => Some(SpecialObject::True),
            -3 => Some(SpecialObject::EofMark),
            -4 => Some(SpecialObject::Undef),
            -5 => Some(SpecialObject::RParen),
            -6 => Some(SpecialObject::Dot),
            _ => None,
        }
    }

    /// Decode the cell as a type discriminator, if it is one.
    pub fn as_type_tag(&self) -> (r: Option<TypeTag>)
        ensures
            match r {
                Some(tag) => self.0 == tag.spec_code(),
                None => forall|tag: TypeTag| self.0 != tag.spec_code(),
            },
    {
        match self.0 {
            -10 => Some(TypeTag::Bytecode),
            -11 => Some(TypeTag::Catchtag),
            -12 => Some(TypeTag::Char),
            -13 => Some(TypeTag::Closure),
            -14 => Some(TypeTag::Fixnum),
            -15 => Some(TypeTag::Inport),
            -16 => Some(TypeTag::Outport),
            -17 => Some(TypeTag::String),
            -18 => Some(TypeTag::Symbol),
            -19 => Some(TypeTag::Vector),
            _ => None,
        }
    }
}

} // verus!
