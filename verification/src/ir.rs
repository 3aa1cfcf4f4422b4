//! The intermediate representation that kernel expansion builds: typed local
//! variables and the unary instructions registered in a context.

use vstd::prelude::*;

verus! {

/// Floating-point element kinds.
#[derive(Clone, Copy, Debug, PartialEq, Eq, Structural)]
pub enum FloatKind {
    F16,
    BF16,
    Flex32,
    TF32,
    F32,
    F64,
}

/// Signed integer element kinds.
#[derive(Clone, Copy, Debug, PartialEq, Eq, Structural)]
pub enum IntKind {
    I8,
    I16,
    I32,
    I64,
}

/// Unsigned integer element kinds.
#[derive(Clone, Copy, Debug, PartialEq, Eq, Structural)]
pub enum UIntKind {
    U8,
    U16,
    U32,
    U64,
}

/// The scalar type of a variable.
#[derive(Clone, Copy, Debug, PartialEq, Eq, Structural)]
pub enum Elem {
    Float(FloatKind),
    Int(IntKind),
    UInt(UIntKind),
    Bool,
}

/// A scalar type together with its vectorization factor (`None`: scalar).
#[derive(Clone, Copy, Debug, PartialEq, Eq, Structural)]
pub struct Item {
    pub elem: Elem,
    pub vectorization: Option<u8>,
}

/// A local variable of the kernel being built.
#[derive(Clone, Copy, Debug, PartialEq, Eq, Structural)]
pub struct Variable {
    pub index: u32,
    pub item: Item,
}

/// The unary operators of the intermediate representation.
#[derive(Clone, Copy, Debug, PartialEq, Eq, Structural)]
pub enum Operator {
    Not,
    Neg,
    Abs,
    Exp,
    Log,
    Log1p,
    Cos,
    Sin,
    Tanh,
    Sqrt,
    Round,
    Floor,
    Ceil,
    Erf,
    Recip,
    Magnitude,
    Normalize,
    CountOnes,
    ReverseBits,
    BitwiseNot,
}

/// A registered unary instruction: `out = operator(input)`.
#[derive(Clone, Copy, Debug, PartialEq, Eq, Structural)]
pub struct Instruction {
    pub operator: Operator,
    pub input: Variable,
    pub out: Variable,
}

/// A value being expanded into a kernel: the variable that holds it.
#[derive(Clone, Copy, Debug, PartialEq, Eq, Structural)]
pub struct ExpandElement {
    pub variable: Variable,
}

/// The context in which a kernel is expanded: the instructions registered so
/// far and the number of local variables created so far.
pub struct CubeContext {
    instructions: Vec<Instruction>,
    num_locals: u32,
}

impl View for CubeContext {
    type V = (Seq<Instruction>, nat);

    closed spec fn view(&self) -> (Seq<Instruction>, nat) {
        (self.instructions@, self.num_locals as nat)
    }
}

impl CubeContext {
    /// An empty context: no instruction, no local.
    pub fn new() -> (context: Self)
        ensures
            context@.0 == Seq::<Instruction>::empty(),
            context@.1 == 0,
    {
        CubeContext { instructions: Vec::new(), num_locals: 0 }
    }

    /// Creates a fresh local variable of the given item; locals are numbered
    /// in order of creation.
    pub fn create_local(&mut self, item: Item) -> (out: ExpandElement)
        requires
            old(self)@.1 < u32::MAX,
        ensures
            out.variable == (Variable { index: old(self)@.1 as u32, item }),
            final(self)@.0 == old(self)@.0,
            final(self)@.1 == old(self)@.1 + 1,
    {
        let index = self.num_locals;
        self.num_locals = self.num_locals + 1;
        ExpandElement { variable: Variable { index, item } }
    }

    /// Appends an instruction.
    pub fn register(&mut self, instruction: Instruction)
        ensures
            final(self)@.0 == old(self)@.0.push(instruction),
            final(self)@.1 == old(self)@.1,
    {
        self.instructions.push(instruction);
    }

    /// The instructions registered so far, in order.
    pub fn instructions(&self) -> (res: &Vec<Instruction>)
        ensures
            res@ == self@.0,
    {
        &self.instructions
    }

    /// The number of locals created so far.
    pub fn num_locals(&self) -> (res: u32)
        ensures
            res == self@.1,
    {
        self.num_locals
    }
}

} // verus!
