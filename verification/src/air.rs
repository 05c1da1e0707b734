//! AIR, the Aether Intermediate Representation: a typed, SSA-based
//! representation over a control-flow graph of basic blocks.
//!
//! A [`Function`] owns flat arenas: a value table addressed by [`Value`]
//! (instruction results and block parameters alike) and a block arena
//! addressed by [`Block`]. A function's parameters are the parameters of its
//! entry block, which is always block 0.

use vstd::prelude::*;
use crate::source::Span;
use crate::text::str_eq;

verus! {

/// An AIR type.
#[derive(Clone, Copy, PartialEq, Eq, Structural, Hash, Debug)]
pub enum Type {
    /// The 64-bit signed integer type, `int`.
    Int,
    /// The boolean type, `bool`.
    Bool,
}

/// The textual name of a type.
pub open spec fn ty_name(t: Type) -> Seq<char> {
    match t {
        Type::Int => "int"@,
        Type::Bool => "bool"@,
    }
}

impl Type {
    /// The type's textual name (e.g. `"int"`).
    pub fn name(self) -> (r: &'static str)
        ensures
            r@ == ty_name(self),
    {
        match self {
            Type::Int => "int",
            Type::Bool => "bool",
        }
    }
}

/// A binary arithmetic operator.
#[derive(Clone, Copy, PartialEq, Eq, Structural, Debug)]
pub enum BinaryOp {
    /// Integer addition.
    Add,
    /// Integer subtraction.
    Sub,
    /// Integer multiplication.
    Mul,
    /// Integer division.
    Div,
}

/// The mnemonic of a binary operator.
pub open spec fn binary_mnemonic(op: BinaryOp) -> Seq<char> {
    match op {
        BinaryOp::Add => "add"@,
        BinaryOp::Sub => "sub"@,
        BinaryOp::Mul => "mul"@,
        BinaryOp::Div => "div"@,
    }
}

impl BinaryOp {
    /// The mnemonic used in AIR's textual form (e.g. `"add"`).
    pub fn mnemonic(self) -> (r: &'static str)
        ensures
            r@ == binary_mnemonic(self),
    {
        match self {
            BinaryOp::Add => "add",
            BinaryOp::Sub => "sub",
            BinaryOp::Mul => "mul",
            BinaryOp::Div => "div",
        }
    }
}

/// A unary operator.
#[derive(Clone, Copy, PartialEq, Eq, Structural, Debug)]
pub enum UnaryOp {
    /// Integer negation (`int` to `int`).
    Neg,
    /// Logical negation (`bool` to `bool`).
    Not,
}

/// The mnemonic of a unary operator.
pub open spec fn unary_mnemonic(op: UnaryOp) -> Seq<char> {
    match op {
        UnaryOp::Neg => "neg"@,
        UnaryOp::Not => "not"@,
    }
}

impl UnaryOp {
    /// The mnemonic used in AIR's textual form (e.g. `"neg"`).
    pub fn mnemonic(self) -> (r: &'static str)
        ensures
            r@ == unary_mnemonic(self),
    {
        match self {
            UnaryOp::Neg => "neg",
            UnaryOp::Not => "not",
        }
    }
}

/// A comparison operator; each produces a `bool`.
#[derive(Clone, Copy, PartialEq, Eq, Structural, Debug)]
pub enum CmpOp {
    /// Equal, `==`.
    Eq,
    /// Not equal, `!=`.
    Ne,
    /// Less than, `<`.
    Lt,
    /// Less than or equal, `<=`.
    Le,
    /// Greater than, `>`.
    Gt,
    /// Greater than or equal, `>=`.
    Ge,
}

/// The mnemonic of a comparison.
pub open spec fn relation_mnemonic(op: CmpOp) -> Seq<char> {
    match op {
        CmpOp::Eq => "eq"@,
        CmpOp::Ne => "ne"@,
        CmpOp::Lt => "lt"@,
        CmpOp::Le => "le"@,
        CmpOp::Gt => "gt"@,
        CmpOp::Ge => "ge"@,
    }
}

/// Whether a comparison is an equality test.
pub open spec fn relation_is_equality(op: CmpOp) -> bool {
    op is Eq || op is Ne
}

impl CmpOp {
    /// The mnemonic used in AIR's textual form (e.g. `"lt"`, as in `icmp lt`).
    pub fn mnemonic(self) -> (r: &'static str)
        ensures
            r@ == relation_mnemonic(self),
    {
        match self {
            CmpOp::Eq => "eq",
            CmpOp::Ne => "ne",
            CmpOp::Lt => "lt",
            CmpOp::Le => "le",
            CmpOp::Gt => "gt",
            CmpOp::Ge => "ge",
        }
    }

    /// Whether this comparison is an equality test (`==`/`!=`), which accepts
    /// operands of any single type, as opposed to a relational test, which
    /// requires integer operands.
    pub fn is_equality(self) -> (r: bool)
        ensures
            r == relation_is_equality(self),
    {
        match self {
            CmpOp::Eq | CmpOp::Ne => true,
            _ => false,
        }
    }
}

/// A reference to an SSA value: an index into its function's value table.
#[derive(Clone, Copy, PartialEq, Eq, Structural, PartialOrd, Ord, Hash, Debug)]
pub struct Value(pub u32);

impl Value {
    /// The index this value refers to.
    pub fn index(self) -> (r: usize)
        ensures
            r == self.0,
    {
        self.0 as usize
    }

    /// The value with the given index.
    pub fn from_index(index: usize) -> (r: Value)
        requires
            index <= u32::MAX,
        ensures
            r.0 == index,
    {
        Value(index as u32)
    }
}

/// A reference to a basic block within a [`Function`].
#[derive(Clone, Copy, PartialEq, Eq, Structural, PartialOrd, Ord, Hash, Debug)]
pub struct Block(pub u32);

impl Block {
    /// The index this block refers to.
    pub fn index(self) -> (r: usize)
        ensures
            r == self.0,
    {
        self.0 as usize
    }

    /// The block with the given index.
    pub fn from_index(index: usize) -> (r: Block)
        requires
            index <= u32::MAX,
        ensures
            r.0 == index,
    {
        Block(index as u32)
    }
}

/// The operation an instruction performs. Operands are [`Value`]s.
#[derive(Clone, PartialEq, Eq, Debug)]
pub enum InstData {
    /// An integer constant.
    IConst(i64),
    /// A boolean constant.
    BConst(bool),
    /// A unary operation on one value.
    Unary {
        /// The operator.
        op: UnaryOp,
        /// The operand.
        operand: Value,
    },
    /// A binary arithmetic operation on two values (producing an integer).
    Binary {
        /// The operator.
        op: BinaryOp,
        /// The left operand.
        lhs: Value,
        /// The right operand.
        rhs: Value,
    },
    /// A comparison of two values (producing a boolean).
    ICmp {
        /// The comparison operator.
        op: CmpOp,
        /// The left operand.
        lhs: Value,
        /// The right operand.
        rhs: Value,
    },
    /// A call to another function by name, producing its return value. The
    /// arguments bind the callee's entry-block parameters.
    Call {
        /// The called function's name.
        callee: String,
        /// The argument values, in order.
        args: Vec<Value>,
    },
}

/// The content of an [`InstData`].
pub enum InstDataV {
    IConst(i64),
    BConst(bool),
    Unary { op: UnaryOp, operand: Value },
    Binary { op: BinaryOp, lhs: Value, rhs: Value },
    ICmp { op: CmpOp, lhs: Value, rhs: Value },
    Call { callee: Seq<char>, args: Seq<Value> },
}

impl View for InstData {
    type V = InstDataV;

    open spec fn view(&self) -> InstDataV {
        match self {
            InstData::IConst(n) => InstDataV::IConst(*n),
            InstData::BConst(b) => InstDataV::BConst(*b),
            InstData::Unary { op, operand } => InstDataV::Unary { op: *op, operand: *operand },
            InstData::Binary { op, lhs, rhs } => InstDataV::Binary { op: *op, lhs: *lhs, rhs: *rhs },
            InstData::ICmp { op, lhs, rhs } => InstDataV::ICmp { op: *op, lhs: *lhs, rhs: *rhs },
            InstData::Call { callee, args } => InstDataV::Call { callee: callee@, args: args@ },
        }
    }
}

/// How a [`Value`] is defined: the result of an instruction, or a parameter of
/// a block bound from the arguments of the edge taken into it.
#[derive(Clone, PartialEq, Eq, Debug)]
pub enum ValueDef {
    /// The result of an instruction with this data.
    Inst(InstData),
    /// The `index`-th parameter of `block`.
    Param {
        /// The block this parameter belongs to.
        block: Block,
        /// The parameter's position in the block's parameter list.
        index: usize,
    },
}

/// The content of a [`ValueDef`].
pub enum ValueDefV {
    Inst(InstDataV),
    Param { block: Block, index: usize },
}

impl View for ValueDef {
    type V = ValueDefV;

    open spec fn view(&self) -> ValueDefV {
        match self {
            ValueDef::Inst(d) => ValueDefV::Inst(d@),
            ValueDef::Param { block, index } => ValueDefV::Param { block: *block, index: *index },
        }
    }
}

/// A value's definition, its type, and the source span it came from.
#[derive(Clone, Debug)]
struct ValueData {
    def: ValueDef,
    ty: Type,
    span: Span,
}

/// The content of a value-table entry.
pub struct ValueDataV {
    pub def: ValueDefV,
    pub ty: Type,
    pub span: Span,
}

impl View for ValueData {
    type V = ValueDataV;

    closed spec fn view(&self) -> ValueDataV {
        ValueDataV { def: self.def@, ty: self.ty, span: self.span }
    }
}

/// A branch edge: the target block and the arguments passed to its parameters.
#[derive(Clone, PartialEq, Eq, Debug)]
pub struct BranchTarget {
    /// The destination block.
    pub block: Block,
    /// The values supplied to the destination's parameters, in order.
    pub args: Vec<Value>,
}

/// The content of a [`BranchTarget`].
pub struct BranchTargetV {
    pub block: Block,
    pub args: Seq<Value>,
}

impl View for BranchTarget {
    type V = BranchTargetV;

    open spec fn view(&self) -> BranchTargetV {
        BranchTargetV { block: self.block, args: self.args@ }
    }
}

impl BranchTarget {
    /// A branch to `block` passing no arguments.
    pub fn new(block: Block) -> (r: BranchTarget)
        ensures
            r@ == (BranchTargetV { block, args: seq![] }),
    {
        BranchTarget { block, args: Vec::new() }
    }

    /// A branch to `block` passing `args`.
    pub fn with_args(block: Block, args: Vec<Value>) -> (r: BranchTarget)
        ensures
            r@ == (BranchTargetV { block, args: args@ }),
    {
        BranchTarget { block, args }
    }
}

/// How a basic block ends and transfers control.
#[derive(Clone, PartialEq, Eq, Debug)]
pub enum Terminator {
    /// Return a value from the function.
    Ret(Value),
    /// Unconditionally branch to another block.
    Br(BranchTarget),
    /// Branch to `then_branch` if `cond` (a `bool`) is true, else `else_branch`.
    CondBr {
        /// The boolean condition selecting the successor.
        cond: Value,
        /// The edge taken when `cond` is true.
        then_branch: BranchTarget,
        /// The edge taken when `cond` is false.
        else_branch: BranchTarget,
    },
}

/// The content of a [`Terminator`].
pub enum TerminatorV {
    Ret(Value),
    Br(BranchTargetV),
    CondBr { cond: Value, then_branch: BranchTargetV, else_branch: BranchTargetV },
}

impl View for Terminator {
    type V = TerminatorV;

    open spec fn view(&self) -> TerminatorV {
        match self {
            Terminator::Ret(v) => TerminatorV::Ret(*v),
            Terminator::Br(t) => TerminatorV::Br(t@),
            Terminator::CondBr { cond, then_branch, else_branch } => TerminatorV::CondBr {
                cond: *cond,
                then_branch: then_branch@,
                else_branch: else_branch@,
            },
        }
    }
}

/// The blocks a terminator may transfer control to, in order.
pub open spec fn successors_of(t: TerminatorV) -> Seq<Block> {
    match t {
        TerminatorV::Ret(_) => seq![],
        TerminatorV::Br(target) => seq![target.block],
        TerminatorV::CondBr { then_branch, else_branch, .. } => seq![
            then_branch.block,
            else_branch.block,
        ],
    }
}

impl Terminator {
    /// The blocks this terminator may transfer control to, in order.
    pub fn successors(&self) -> (r: Vec<Block>)
        ensures
            r@ == successors_of(self@),
    {
        match self {
            Terminator::Ret(_) => Vec::new(),
            Terminator::Br(target) => {
                let mut v = Vec::new();
                v.push(target.block);
                v
            },
            Terminator::CondBr { then_branch, else_branch, .. } => {
                let mut v = Vec::new();
                v.push(then_branch.block);
                v.push(else_branch.block);
                v
            },
        }
    }
}

/// The contents of a basic block: its parameters, the values it computes, and
/// its terminator (`None` only while the block is being built).
#[derive(Clone, Debug, Default)]
pub struct BlockData {
    /// The block's parameters (SSA merge points), in order.
    pub params: Vec<Value>,
    /// The values computed in this block, in execution order.
    pub body: Vec<Value>,
    /// How the block ends.
    pub terminator: Option<Terminator>,
}

/// The content of a [`BlockData`].
pub struct BlockDataV {
    pub params: Seq<Value>,
    pub body: Seq<Value>,
    pub terminator: Option<TerminatorV>,
}

impl View for BlockData {
    type V = BlockDataV;

    open spec fn view(&self) -> BlockDataV {
        BlockDataV {
            params: self.params@,
            body: self.body@,
            terminator: match self.terminator {
                Some(t) => Some(t@),
                None => None,
            },
        }
    }
}

/// The views of a sequence of blocks.
pub open spec fn blocks_view(bs: Seq<BlockData>) -> Seq<BlockDataV> {
    bs.map_values(|b: BlockData| b@)
}

/// The content of a [`Function`].
pub struct FunctionV {
    pub name: Seq<char>,
    pub return_type: Type,
    pub values: Seq<ValueDataV>,
    pub blocks: Seq<BlockDataV>,
}

impl FunctionV {
    /// The invariant every function keeps: an entry block exists, indices fit
    /// in 32 bits, every block parameter and body value is a value of the
    /// function, and every body value is the result of an instruction.
    pub open spec fn wf(self) -> bool {
        &&& 1 <= self.blocks.len() <= u32::MAX
        &&& self.values.len() <= u32::MAX
        &&& forall|b: int, i: int|
            0 <= b < self.blocks.len() && 0 <= i < self.blocks[b].params.len() ==> (
            #[trigger] self.blocks[b].params[i]).0 < self.values.len()
        &&& forall|b: int, i: int|
            0 <= b < self.blocks.len() && 0 <= i < self.blocks[b].body.len() ==> (
            #[trigger] self.blocks[b].body[i]).0 < self.values.len()
            && self.values[self.blocks[b].body[i].0 as int].def is Inst
    }

    /// The function's parameters: the entry block's parameters.
    pub open spec fn params(self) -> Seq<Value> {
        self.blocks[0].params
    }

    /// The type of a value.
    pub open spec fn ty(self, v: Value) -> Type {
        self.values[v.0 as int].ty
    }
}

/// A function: a name, a return type, and a control-flow graph of basic
/// blocks whose entry is block 0.
#[derive(Clone, Debug)]
pub struct Function {
    /// The function's name.
    pub name: String,
    /// The function's return type.
    pub return_type: Type,
    /// The value table, addressed by [`Value`].
    values: Vec<ValueData>,
    /// The basic-block arena, addressed by [`Block`].
    blocks: Vec<BlockData>,
}

impl View for Function {
    type V = FunctionV;

    closed spec fn view(&self) -> FunctionV {
        FunctionV {
            name: self.name@,
            return_type: self.return_type,
            values: self.values@.map_values(|d: ValueData| d@),
            blocks: blocks_view(self.blocks@),
        }
    }
}

impl Function {
    /// Create a function with the given name and return type and an empty
    /// entry block.
    pub fn new(name: &str, return_type: Type) -> (r: Function)
        ensures
            r@.wf(),
            r@.name == name@,
            r@.return_type == return_type,
            r@.values == Seq::<ValueDataV>::empty(),
            r@.blocks == seq![BlockDataV { params: seq![], body: seq![], terminator: None }],
    {
        let mut blocks = Vec::new();
        blocks.push(BlockData { params: Vec::new(), body: Vec::new(), terminator: None });
        let r = Function { name: String::from_str(name), return_type, values: Vec::new(), blocks };
        assert(r@.blocks =~= seq![BlockDataV { params: seq![], body: seq![], terminator: None }]);
        r
    }

    /// The function's name.
    pub fn name(&self) -> (r: &str)
        ensures
            r@ == self@.name,
    {
        self.name.as_str()
    }

    /// The function's return type.
    pub fn return_type(&self) -> (r: Type)
        ensures
            r == self@.return_type,
    {
        self.return_type
    }

    /// The entry block.
    pub fn entry(&self) -> (r: Block)
        ensures
            r.0 == 0,
    {
        Block(0)
    }

    /// Append a new, empty basic block and return its id.
    pub fn append_block(&mut self) -> (r: Block)
        requires
            old(self)@.wf(),
            old(self)@.blocks.len() < u32::MAX,
        ensures
            final(self)@.wf(),
            r.0 == old(self)@.blocks.len(),
            final(self)@ == (FunctionV {
                blocks: old(self)@.blocks.push(
                    BlockDataV { params: seq![], body: seq![], terminator: None },
                ),
                ..old(self)@
            }),
    {
        let id = Block(self.blocks.len() as u32);
        self.blocks.push(BlockData { params: Vec::new(), body: Vec::new(), terminator: None });
        proof {
            assert(blocks_view(self.blocks@) =~= blocks_view(old(self).blocks@).push(
                BlockDataV { params: seq![], body: seq![], terminator: None },
            ));
        }
        assert(self@ =~= (FunctionV {
            blocks: old(self)@.blocks.push(
                BlockDataV { params: seq![], body: seq![], terminator: None },
            ),
            ..old(self)@
        }));
        id
    }

    /// Append a function parameter of type `ty`: a parameter of the entry block.
    pub fn append_param(&mut self, ty: Type, span: Span) -> (r: Value)
        requires
            old(self)@.wf(),
            old(self)@.values.len() < u32::MAX,
        ensures
            final(self)@ == old(self)@.with_param(0, ty, span),
            r.0 == old(self)@.values.len(),
            final(self)@.wf(),
            final(self)@.params() == old(self)@.params().push(r),
            final(self)@.ty(r) == ty,
    {
        self.append_block_param(Block(0), ty, span)
    }

    /// The function's parameters (the entry block's parameters), in order.
    pub fn params(&self) -> (r: &[Value])
        requires
            self@.wf(),
        ensures
            r@ == self@.params(),
    {
        self.blocks[0].params.as_slice()
    }

    /// Append a parameter of type `ty` to `block`, returning the value it
    /// defines.
    pub fn append_block_param(&mut self, block: Block, ty: Type, span: Span) -> (r: Value)
        requires
            old(self)@.wf(),
            block.0 < old(self)@.blocks.len(),
            old(self)@.values.len() < u32::MAX,
        ensures
            final(self)@ == old(self)@.with_param(block.0 as int, ty, span),
            r.0 == old(self)@.values.len(),
            final(self)@.wf(),
    {
        let b = block.0 as usize;
        let index = self.blocks[b].params.len();
        let value = Value(self.values.len() as u32);
        self.values.push(ValueData { def: ValueDef::Param { block, index }, ty, span });
        self.blocks[b].params.push(value);
        proof {
            let o = old(self)@;
            assert(self@.values =~= o.values.push(
                ValueDataV { def: ValueDefV::Param { block, index }, ty, span },
            ));
            assert(self@.blocks =~= o.blocks.update(
                b as int,
                BlockDataV { params: o.blocks[b as int].params.push(value), ..o.blocks[b as int] },
            ));
            assert(self@ =~= o.with_param(block.0 as int, ty, span));
        }
        value
    }

    /// Append an instruction to `block`, returning the value it defines.
    pub fn push_inst(&mut self, block: Block, data: InstData, ty: Type, span: Span) -> (r: Value)
        requires
            old(self)@.wf(),
            block.0 < old(self)@.blocks.len(),
            old(self)@.values.len() < u32::MAX,
        ensures
            final(self)@ == old(self)@.with_inst(block.0 as int, data@, ty, span),
            r.0 == old(self)@.values.len(),
            final(self)@.wf(),
    {
        let b = block.0 as usize;
        let value = Value(self.values.len() as u32);
        let ghost dv = data@;
        self.values.push(ValueData { def: ValueDef::Inst(data), ty, span });
        self.blocks[b].body.push(value);
        proof {
            let o = old(self)@;
            assert(self@.values =~= o.values.push(
                ValueDataV { def: ValueDefV::Inst(dv), ty, span },
            ));
            assert(self@.blocks =~= o.blocks.update(
                b as int,
                BlockDataV { body: o.blocks[b as int].body.push(value), ..o.blocks[b as int] },
            ));
            assert(self@ =~= o.with_inst(block.0 as int, dv, ty, span));
        }
        value
    }

    /// Set the terminator of `block`.
    pub fn set_terminator(&mut self, block: Block, terminator: Terminator)
        requires
            old(self)@.wf(),
            block.0 < old(self)@.blocks.len(),
        ensures
            final(self)@ == old(self)@.with_terminator(block.0 as int, terminator@),
            final(self)@.wf(),
    {
        let b = block.0 as usize;
        let ghost tv = terminator@;
        self.blocks[b].terminator = Some(terminator);
        proof {
            let o = old(self)@;
            assert(self@.blocks =~= o.blocks.update(
                b as int,
                BlockDataV { terminator: Some(tv), ..o.blocks[b as int] },
            ));
            assert(self@ =~= o.with_terminator(block.0 as int, tv));
        }
    }

    /// How `value` is defined.
    pub fn value_def(&self, value: Value) -> (r: &ValueDef)
        requires
            value.0 < self@.values.len(),
        ensures
            r@ == self@.values[value.0 as int].def,
    {
        &self.values[value.0 as usize].def
    }

    /// The type of `value`.
    pub fn value_type(&self, value: Value) -> (r: Type)
        requires
            value.0 < self@.values.len(),
        ensures
            r == self@.ty(value),
    {
        self.values[value.0 as usize].ty
    }

    /// The source span `value` was lowered from.
    pub fn value_span(&self, value: Value) -> (r: Span)
        requires
            value.0 < self@.values.len(),
        ensures
            r == self@.values[value.0 as int].span,
    {
        self.values[value.0 as usize].span
    }

    /// The number of values (instruction results and block parameters).
    pub fn value_count(&self) -> (r: usize)
        ensures
            r == self@.values.len(),
    {
        self.values.len()
    }

    /// The contents of `block`.
    pub fn block(&self, block: Block) -> (r: &BlockData)
        requires
            block.0 < self@.blocks.len(),
        ensures
            r@ == self@.blocks[block.0 as int],
    {
        &self.blocks[block.0 as usize]
    }

    /// All basic blocks, in id order (id == position).
    pub fn blocks(&self) -> (r: &[BlockData])
        ensures
            blocks_view(r@) == self@.blocks,
    {
        self.blocks.as_slice()
    }
}

impl FunctionV {
    /// The function after appending a parameter to block `b`.
    pub open spec fn with_param(self, b: int, ty: Type, span: Span) -> FunctionV {
        let v = Value(self.values.len() as u32);
        FunctionV {
            values: self.values.push(
                ValueDataV {
                    def: ValueDefV::Param { block: Block(b as u32), index: self.blocks[b].params.len() as usize },
                    ty,
                    span,
                },
            ),
            blocks: self.blocks.update(
                b,
                BlockDataV { params: self.blocks[b].params.push(v), ..self.blocks[b] },
            ),
            ..self
        }
    }

    /// The function after appending an instruction to block `b`.
    pub open spec fn with_inst(self, b: int, data: InstDataV, ty: Type, span: Span) -> FunctionV {
        let v = Value(self.values.len() as u32);
        FunctionV {
            values: self.values.push(ValueDataV { def: ValueDefV::Inst(data), ty, span }),
            blocks: self.blocks.update(
                b,
                BlockDataV { body: self.blocks[b].body.push(v), ..self.blocks[b] },
            ),
            ..self
        }
    }

    /// The function after setting the terminator of block `b`.
    pub open spec fn with_terminator(self, b: int, t: TerminatorV) -> FunctionV {
        FunctionV {
            blocks: self.blocks.update(b, BlockDataV { terminator: Some(t), ..self.blocks[b] }),
            ..self
        }
    }
}

/// The index of the first function named `name` at or after index `i`, if any.
pub open spec fn find_function_from(fs: Seq<FunctionV>, name: Seq<char>, i: int) -> Option<int>
    decreases fs.len() - i,
{
    if i < 0 || i >= fs.len() {
        None
    } else if fs[i].name == name {
        Some(i)
    } else {
        find_function_from(fs, name, i + 1)
    }
}

/// The index of the first function named `name`, if any.
pub open spec fn find_function(fs: Seq<FunctionV>, name: Seq<char>) -> Option<int> {
    find_function_from(fs, name, 0)
}

/// The first function named `name` is found, and only when one exists.
pub proof fn lemma_find_function_from(fs: Seq<FunctionV>, name: Seq<char>, i: int)
    requires
        0 <= i,
    ensures
        match find_function_from(fs, name, i) {
            Some(j) => i <= j < fs.len() && fs[j].name == name && forall|l: int|
                i <= l < j ==> fs[l].name != name,
            None => forall|l: int| i <= l < fs.len() ==> fs[l].name != name,
        },
    decreases fs.len() - i,
{
    if i < fs.len() && fs[i].name != name {
        lemma_find_function_from(fs, name, i + 1);
    }
}

/// A translation unit: a collection of functions.
#[derive(Debug)]
pub struct Module {
    functions: Vec<Function>,
}

impl View for Module {
    type V = Seq<FunctionV>;

    closed spec fn view(&self) -> Seq<FunctionV> {
        self.functions@.map_values(|f: Function| f@)
    }
}

impl Module {
    #[verifier::type_invariant]
    spec fn inv(self) -> bool {
        forall|i: int| 0 <= i < self.functions@.len() ==> (#[trigger] self.functions@[i])@.wf()
    }

    /// Create an empty module.
    pub fn new() -> (r: Module)
        ensures
            r@ == Seq::<FunctionV>::empty(),
    {
        let r = Module { functions: Vec::new() };
        assert(r@ =~= Seq::<FunctionV>::empty());
        r
    }

    /// Append a function to the module.
    pub fn add_function(&mut self, function: Function)
        requires
            function@.wf(),
        ensures
            final(self)@ == old(self)@.push(function@),
    {
        proof { use_type_invariant(&*self); }
        let ghost fv = function@;
        let mut fs = Vec::new();
        std::mem::swap(&mut fs, &mut self.functions);
        fs.push(function);
        self.functions = fs;
        assert(self@ =~= old(self)@.push(fv));
    }

    /// The module's functions.
    pub fn functions(&self) -> (r: &[Function])
        ensures
            r@.map_values(|f: Function| f@) == self@,
            forall|i: int| 0 <= i < self@.len() ==> (#[trigger] self@[i]).wf(),
    {
        proof { use_type_invariant(self); }
        self.functions.as_slice()
    }

    /// The first function with the given name, if any.
    pub fn function_by_name(&self, name: &str) -> (r: Option<&Function>)
        ensures
            match find_function(self@, name@) {
                Some(i) => r is Some && r->0@ == self@[i],
                None => r is None,
            },
            forall|i: int| 0 <= i < self@.len() ==> (#[trigger] self@[i]).wf(),
    {
        proof { use_type_invariant(self); }
        let mut i: usize = 0;
        while i < self.functions.len()
            invariant
                i <= self.functions@.len(),
                find_function(self@, name@) == find_function_from(self@, name@, i as int),
                forall|j: int| 0 <= j < self@.len() ==> (#[trigger] self@[j]).wf(),
            decreases self.functions@.len() - i,
        {
            if str_eq(self.functions[i].name.as_str(), name) {
                assert(self@[i as int].name == name@);
                return Some(&self.functions[i]);
            }
            i = i + 1;
        }
        None
    }
}

} // verus!
