//! An owned model of an LLVM bitcode module.
//!
//! Values, functions and basic blocks live in three tables and refer to each
//! other by index. A `Module` is well formed (`wf`) when every index it holds
//! is in range and every function's own value names that function.
use vstd::prelude::*;

verus! {

/// Instruction opcodes, one for each LLVM opcode.
#[derive(Clone, Copy)]
pub enum Opcode {
    Ret,
    Br,
    Switch,
    IndirectBr,
    Invoke,
    Unreachable,
    CallBr,
    FNeg,
    Add,
    FAdd,
    Sub,
    FSub,
    Mul,
    FMul,
    UDiv,
    SDiv,
    FDiv,
    URem,
    SRem,
    FRem,
    Shl,
    LShr,
    AShr,
    And,
    Or,
    Xor,
    Alloca,
    Load,
    Store,
    GetElementPtr,
    Trunc,
    ZExt,
    SExt,
    FPToUI,
    FPToSI,
    UIToFP,
    SIToFP,
    FPTrunc,
    FPExt,
    PtrToInt,
    IntToPtr,
    BitCast,
    AddrSpaceCast,
    ICmp,
    FCmp,
    PHI,
    Call,
    Select,
    UserOp1,
    UserOp2,
    VAArg,
    ExtractElement,
    InsertElement,
    ShuffleVector,
    ExtractValue,
    InsertValue,
    Freeze,
    Fence,
    AtomicCmpXchg,
    AtomicRMW,
    Resume,
    LandingPad,
    CleanupRet,
    CatchRet,
    CatchPad,
    CleanupPad,
    CatchSwitch,
}

/// Integer comparison predicates of an `icmp` instruction.
#[derive(Clone, Copy)]
pub enum IntPredicate {
    Eq,
    Ne,
    Ugt,
    Uge,
    Ult,
    Ule,
    Sgt,
    Sge,
    Slt,
    Sle,
}

/// Kinds of LLVM types.
#[derive(Clone, Copy)]
pub enum TypeKind {
    Void,
    Half,
    Float,
    Double,
    X86Fp80,
    Fp128,
    PpcFp128,
    Label,
    Integer,
    Function,
    Struct,
    Array,
    Pointer,
    Vector,
    Metadata,
    Token,
    ScalableVector,
    BFloat,
    X86Amx,
    TargetExt,
}

/// The type of a value: its kind, its bit width when it is an integer type
/// (0 otherwise), and its printed form.
pub struct TypeInfo {
    pub kind: TypeKind,
    pub int_width: u32,
    pub text: String,
}

/// Source location from debug metadata.
pub struct DebugLoc {
    pub filename: String,
    pub line: u32,
}

/// The instruction-specific part of a value.
pub struct Inst {
    pub opcode: Opcode,
    /// Index of the basic block that holds the instruction.
    pub block: usize,
    /// All operands, as value indices.
    pub operands: Vec<usize>,
    /// The argument operands of a call or invoke (empty for other instructions).
    pub args: Vec<usize>,
    /// The called operand of a call or invoke.
    pub callee: Option<usize>,
    /// Successor blocks of a terminator, as block indices.
    pub successors: Vec<usize>,
    pub debug_loc: Option<DebugLoc>,
    /// The predicate of an `icmp`.
    pub predicate: Option<IntPredicate>,
    /// The printed source element type of a `getelementptr` (empty otherwise).
    pub gep_source_type: String,
}

/// What a value is.
pub enum ValueKind {
    /// The function with this index.
    Function(usize),
    /// The basic block with this index (a label-typed value).
    BasicBlock(usize),
    /// An integer constant, by its zero-extended value.
    ConstantInt(u64),
    Instruction(Inst),
    /// Anything else: arguments, globals, other constants, metadata.
    Other,
}

pub struct Value {
    /// The value's name; empty when it has none.
    pub name: String,
    pub ty: Option<TypeInfo>,
    pub kind: ValueKind,
    /// The users of this value, in use-list order, as value indices.
    pub users: Vec<usize>,
}

pub struct Function {
    /// Index of the value that stands for this function.
    pub value: usize,
    /// Parameter values, in order.
    pub params: Vec<usize>,
    /// Basic blocks in layout order; the first is the entry block.
    pub blocks: Vec<usize>,
}

pub struct Block {
    pub name: String,
    /// Index of the function holding the block.
    pub func: usize,
    /// Instructions in order, as value indices.
    pub insts: Vec<usize>,
}

pub struct Module {
    pub values: Vec<Value>,
    pub functions: Vec<Function>,
    pub blocks: Vec<Block>,
}

/// Every element of `s` is below `n`.
pub open spec fn all_below(s: Seq<usize>, n: int) -> bool {
    forall|k: int| 0 <= k < s.len() ==> #[trigger] s[k] < n
}

pub open spec fn opt_below(o: Option<usize>, n: int) -> bool {
    match o {
        Some(x) => x < n,
        None => true,
    }
}

pub open spec fn inst_wf(i: Inst, nvalues: int, nblocks: int) -> bool {
    &&& i.block < nblocks
    &&& all_below(i.operands@, nvalues)
    &&& all_below(i.args@, nvalues)
    &&& opt_below(i.callee, nvalues)
    &&& all_below(i.successors@, nblocks)
}

pub open spec fn opcode_is_terminator(op: Opcode) -> bool {
    match op {
        Opcode::Ret | Opcode::Br | Opcode::Switch | Opcode::IndirectBr | Opcode::Invoke
        | Opcode::Unreachable | Opcode::CallBr | Opcode::Resume | Opcode::CleanupRet
        | Opcode::CatchRet | Opcode::CatchSwitch => true,
        _ => false,
    }
}

impl Module {
    pub open spec fn nvalues(&self) -> int {
        self.values.len() as int
    }

    pub open spec fn nfunctions(&self) -> int {
        self.functions.len() as int
    }

    pub open spec fn nblocks(&self) -> int {
        self.blocks.len() as int
    }

    pub open spec fn value_wf(&self, v: int) -> bool {
        let val = self.values[v];
        &&& all_below(val.users@, self.nvalues())
        &&& match val.kind {
            ValueKind::Function(f) => f < self.nfunctions() && self.functions[f as int].value == v,
            ValueKind::BasicBlock(b) => b < self.nblocks(),
            ValueKind::Instruction(i) => inst_wf(i, self.nvalues(), self.nblocks()),
            _ => true,
        }
    }

    pub open spec fn function_wf(&self, f: int) -> bool {
        let func = self.functions[f];
        &&& func.value < self.nvalues()
        &&& self.values[func.value as int].kind == ValueKind::Function(f as usize)
        &&& all_below(func.params@, self.nvalues())
        &&& all_below(func.blocks@, self.nblocks())
    }

    pub open spec fn block_wf(&self, b: int) -> bool {
        let blk = self.blocks[b];
        &&& blk.func < self.nfunctions()
        &&& all_below(blk.insts@, self.nvalues())
    }

    /// Every index held anywhere in the module is in range, and each function's
    /// value is a function value naming that function.
    pub open spec fn wf(&self) -> bool {
        &&& forall|v: int| 0 <= v < self.nvalues() ==> #[trigger] self.value_wf(v)
        &&& forall|f: int| 0 <= f < self.nfunctions() ==> #[trigger] self.function_wf(f)
        &&& forall|b: int| 0 <= b < self.nblocks() ==> #[trigger] self.block_wf(b)
    }

    pub open spec fn valid(&self, v: int) -> bool {
        0 <= v < self.nvalues()
    }

    /// The instruction part of value `v`, if it is an instruction.
    pub open spec fn inst(&self, v: int) -> Option<Inst> {
        if self.valid(v) {
            match self.values[v].kind {
                ValueKind::Instruction(i) => Some(i),
                _ => None,
            }
        } else {
            None
        }
    }

    pub open spec fn is_inst(&self, v: int) -> bool {
        self.inst(v) is Some
    }

    pub open spec fn has_opcode(&self, v: int, op: Opcode) -> bool {
        self.inst(v) matches Some(i) && i.opcode == op
    }

    /// `v` is a call or invoke instruction.
    pub open spec fn is_call(&self, v: int) -> bool {
        self.has_opcode(v, Opcode::Call) || self.has_opcode(v, Opcode::Invoke)
    }

    /// Argument operands of `v` (empty when `v` is not an instruction).
    pub open spec fn args(&self, v: int) -> Seq<usize> {
        match self.inst(v) {
            Some(i) => i.args@,
            None => Seq::empty(),
        }
    }

    pub open spec fn operands(&self, v: int) -> Seq<usize> {
        match self.inst(v) {
            Some(i) => i.operands@,
            None => Seq::empty(),
        }
    }

    pub open spec fn successors(&self, v: int) -> Seq<usize> {
        match self.inst(v) {
            Some(i) => i.successors@,
            None => Seq::empty(),
        }
    }

    pub open spec fn debug_loc(&self, v: int) -> Option<DebugLoc> {
        match self.inst(v) {
            Some(i) => i.debug_loc,
            None => None,
        }
    }

    /// The function whose value is `c`, if `c` is a function value.
    pub open spec fn function_of_value(&self, c: int) -> Option<usize> {
        if self.valid(c) {
            match self.values[c].kind {
                ValueKind::Function(f) => Some(f),
                _ => None,
            }
        } else {
            None
        }
    }

    /// The function that the call or invoke `v` calls directly.
    pub open spec fn called_function(&self, v: int) -> Option<usize> {
        if self.is_call(v) {
            match self.inst(v).unwrap().callee {
                Some(c) => self.function_of_value(c as int),
                None => None,
            }
        } else {
            None
        }
    }

    pub open spec fn value_name(&self, v: int) -> Seq<char> {
        self.values[v].name@
    }

    pub open spec fn function_name(&self, f: int) -> Seq<char> {
        self.value_name(self.functions[f].value as int)
    }

    /// The name of the function directly called by `v`, when it has one.
    pub open spec fn called_fn_name(&self, v: int) -> Option<Seq<char>> {
        match self.called_function(v) {
            Some(f) => if self.function_name(f as int).len() == 0 {
                None
            } else {
                Some(self.function_name(f as int))
            },
            None => None,
        }
    }

    /// The block's last instruction, when it is a terminator.
    pub open spec fn terminator(&self, b: int) -> Option<usize> {
        let insts = self.blocks[b].insts@;
        if insts.len() == 0 {
            None
        } else {
            match self.inst(insts.last() as int) {
                Some(i) => if opcode_is_terminator(i.opcode) {
                    Some(insts.last())
                } else {
                    None
                },
                None => None,
            }
        }
    }

    /// The parent function of the instruction `v`.
    pub open spec fn parent_function(&self, v: int) -> Option<usize> {
        match self.inst(v) {
            Some(i) => Some(self.blocks[i.block as int].func),
            None => None,
        }
    }
}

/// The instructions of the blocks `bs`, block after block.
pub open spec fn flatten_blocks(m: &Module, bs: Seq<usize>) -> Seq<usize>
    decreases bs.len(),
{
    if bs.len() == 0 {
        Seq::empty()
    } else {
        flatten_blocks(m, bs.drop_last()) + m.blocks[bs.last() as int].insts@
    }
}

/// All instructions of function `f`, in layout order.
pub open spec fn fn_insts(m: &Module, f: int) -> Seq<usize> {
    flatten_blocks(m, m.functions[f].blocks@)
}

pub proof fn lemma_flatten_below(m: &Module, bs: Seq<usize>)
    requires
        m.wf(),
        all_below(bs, m.nblocks()),
    ensures
        all_below(flatten_blocks(m, bs), m.nvalues()),
    decreases bs.len(),
{
    if bs.len() > 0 {
        lemma_flatten_below(m, bs.drop_last());
        assert(m.block_wf(bs.last() as int));
    }
}

/// A function, by its index in `Module::functions`.
pub struct FunctionRef(pub usize);

/// A basic block, by its index in `Module::blocks`.
pub struct BasicBlockRef(pub usize);

/// A value (usually an instruction), by its index in `Module::values`.
pub struct InstructionRef(pub usize);

impl Module {
    /// All functions of the module, in order.
    pub fn functions(&self) -> (r: Vec<FunctionRef>)
        ensures
            r@.len() == self.functions@.len(),
            forall|k: int| 0 <= k < r@.len() ==> (#[trigger] r@[k]).0 == k,
    {
        let mut r: Vec<FunctionRef> = Vec::new();
        let n = self.functions.len();
        for k in 0..n
            invariant
                n == self.functions@.len(),
                r@.len() == k,
                forall|j: int| 0 <= j < k ==> (#[trigger] r@[j]).0 == j,
        {
            r.push(FunctionRef(k));
        }
        r
    }

    /// Checks `wf`.
    pub fn is_well_formed(&self) -> (r: bool)
        ensures
            r == self.wf(),
    {
        let nv = self.values.len();
        let nf = self.functions.len();
        let nb = self.blocks.len();
        let mut v: usize = 0;
        while v < nv
            invariant
                nv == self.values@.len(),
                nf == self.functions@.len(),
                nb == self.blocks@.len(),
                v <= nv,
                forall|u: int| 0 <= u < v ==> #[trigger] self.value_wf(u),
            decreases nv - v,
        {
            if !self.check_value(v) {
                assert(!self.value_wf(v as int));
                return false;
            }
            v += 1;
        }
        let mut f: usize = 0;
        while f < nf
            invariant
                nv == self.values@.len(),
                nf == self.functions@.len(),
                nb == self.blocks@.len(),
                f <= nf,
                forall|u: int| 0 <= u < nv ==> #[trigger] self.value_wf(u),
                forall|g: int| 0 <= g < f ==> #[trigger] self.function_wf(g),
            decreases nf - f,
        {
            let func = &self.functions[f];
            let mut ok = func.value < nv && all_below_exec(&func.params, nv)
                && all_below_exec(&func.blocks, nb);
            if ok {
                match &self.values[func.value].kind {
                    ValueKind::Function(g) => {
                        ok = *g == f;
                    },
                    _ => {
                        ok = false;
                    },
                }
            }
            if !ok {
                assert(!self.function_wf(f as int));
                return false;
            }
            f += 1;
        }
        let mut b: usize = 0;
        while b < nb
            invariant
                nv == self.values@.len(),
                nf == self.functions@.len(),
                nb == self.blocks@.len(),
                b <= nb,
                forall|u: int| 0 <= u < nv ==> #[trigger] self.value_wf(u),
                forall|g: int| 0 <= g < nf ==> #[trigger] self.function_wf(g),
                forall|c: int| 0 <= c < b ==> #[trigger] self.block_wf(c),
            decreases nb - b,
        {
            let blk = &self.blocks[b];
            if blk.func >= nf || !all_below_exec(&blk.insts, nv) {
                assert(!self.block_wf(b as int));
                return false;
            }
            b += 1;
        }
        true
    }

    fn check_value(&self, v: usize) -> (r: bool)
        requires
            v < self.values@.len(),
        ensures
            r == self.value_wf(v as int),
    {
        let nv = self.values.len();
        let nb = self.blocks.len();
        let val = &self.values[v];
        if !all_below_exec(&val.users, nv) {
            return false;
        }
        match &val.kind {
            ValueKind::Function(f) => {
                *f < self.functions.len() && self.functions[*f].value == v
            },
            ValueKind::BasicBlock(b) => *b < nb,
            ValueKind::Instruction(i) => {
                let callee_ok = match i.callee {
                    Some(c) => c < nv,
                    None => true,
                };
                i.block < nb && all_below_exec(&i.operands, nv) && all_below_exec(&i.args, nv)
                    && callee_ok && all_below_exec(&i.successors, nb)
            },
            _ => true,
        }
    }

    /// The instruction part of value `v`.
    pub fn inst_data(&self, v: usize) -> (r: Option<&Inst>)
        requires
            v < self.values@.len(),
        ensures
            r matches Some(i) ==> self.inst(v as int) == Some(*i),
            r is None <==> self.inst(v as int) is None,
    {
        match &self.values[v].kind {
            ValueKind::Instruction(i) => Some(i),
            _ => None,
        }
    }

    /// The function that the call or invoke `v` calls directly.
    pub fn direct_callee(&self, v: usize) -> (r: Option<usize>)
        requires
            self.wf(),
            v < self.values@.len(),
        ensures
            r == self.called_function(v as int),
            r matches Some(f) ==> f < self.functions@.len(),
    {
        assert(self.value_wf(v as int));
        match self.inst_data(v) {
            Some(i) => {
                match i.opcode {
                    Opcode::Call | Opcode::Invoke => {},
                    _ => {
                        return None;
                    },
                }
                match i.callee {
                    Some(c) => {
                        assert(self.value_wf(c as int));
                        match &self.values[c].kind {
                            ValueKind::Function(f) => Some(*f),
                            _ => None,
                        }
                    },
                    None => None,
                }
            },
            None => None,
        }
    }

    /// All instructions of function `f`, in layout order.
    pub fn function_insts(&self, f: usize) -> (r: Vec<usize>)
        requires
            self.wf(),
            f < self.functions@.len(),
        ensures
            r@ == fn_insts(self, f as int),
            all_below(r@, self.nvalues()),
    {
        assert(self.function_wf(f as int));
        let bs = &self.functions[f].blocks;
        let mut r: Vec<usize> = Vec::new();
        let n = bs.len();
        for k in 0..n
            invariant
                self.wf(),
                n == bs@.len(),
                bs@ == self.functions@[f as int].blocks@,
                all_below(bs@, self.nblocks()),
                r@ == flatten_blocks(self, bs@.take(k as int)),
        {
            let b = bs[k];
            assert(self.block_wf(b as int));
            let insts = &self.blocks[b].insts;
            let ghost before = r@;
            let m = insts.len();
            for j in 0..m
                invariant
                    m == insts@.len(),
                    r@ == before + insts@.take(j as int),
            {
                r.push(insts[j]);
                assert(insts@.take(j + 1) == insts@.take(j as int).push(insts@[j as int]));
            }
            assert(insts@.take(m as int) == insts@);
            assert(bs@.take(k + 1).drop_last() == bs@.take(k as int));
        }
        assert(bs@.take(n as int) == bs@);
        proof {
            lemma_flatten_below(self, bs@);
        }
        r
    }
}

/// Every element of `s` is below `n`.
pub fn all_below_exec(s: &Vec<usize>, n: usize) -> (r: bool)
    ensures
        r == all_below(s@, n as int),
{
    let len = s.len();
    for k in 0..len
        invariant
            len == s@.len(),
            forall|j: int| 0 <= j < k ==> #[trigger] s@[j] < n,
    {
        if s[k] >= n {
            return false;
        }
    }
    true
}

impl FunctionRef {
    pub open spec fn view_name(&self, m: &Module) -> Seq<char> {
        m.function_name(self.0 as int)
    }

    /// The function's name (its mangled symbol).
    pub fn name<'a>(&self, m: &'a Module) -> (r: &'a str)
        requires
            m.wf(),
            self.0 < m.functions@.len(),
        ensures
            r@ == m.function_name(self.0 as int),
    {
        assert(m.function_wf(self.0 as int));
        m.values[m.functions[self.0].value].name.as_str()
    }

    /// The function's basic blocks, in layout order.
    pub fn basic_blocks(&self, m: &Module) -> (r: Vec<BasicBlockRef>)
        requires
            m.wf(),
            self.0 < m.functions@.len(),
        ensures
            r@.len() == m.functions@[self.0 as int].blocks@.len(),
            forall|k: int| 0 <= k < r@.len() ==> (#[trigger] r@[k]).0 == m.functions@[self.0 as int].blocks@[k],
    {
        let bs = &m.functions[self.0].blocks;
        let mut r: Vec<BasicBlockRef> = Vec::new();
        let n = bs.len();
        for k in 0..n
            invariant
                n == bs@.len(),
                bs@ == m.functions@[self.0 as int].blocks@,
                r@.len() == k,
                forall|j: int| 0 <= j < k ==> (#[trigger] r@[j]).0 == bs@[j],
        {
            r.push(BasicBlockRef(bs[k]));
        }
        r
    }

    pub fn param_count(&self, m: &Module) -> (r: usize)
        requires
            self.0 < m.functions@.len(),
        ensures
            r == m.functions@[self.0 as int].params@.len(),
    {
        m.functions[self.0].params.len()
    }

    /// The `i`-th parameter value.
    pub fn get_param(&self, m: &Module, i: usize) -> (r: usize)
        requires
            m.wf(),
            self.0 < m.functions@.len(),
            i < m.functions@[self.0 as int].params@.len(),
        ensures
            r == m.functions@[self.0 as int].params@[i as int],
            r < m.values@.len(),
    {
        assert(m.function_wf(self.0 as int));
        m.functions[self.0].params[i]
    }

    /// The value standing for the function.
    pub fn raw(&self, m: &Module) -> (r: usize)
        requires
            m.wf(),
            self.0 < m.functions@.len(),
        ensures
            r == m.functions@[self.0 as int].value,
            r < m.values@.len(),
    {
        assert(m.function_wf(self.0 as int));
        m.functions[self.0].value
    }
}

impl BasicBlockRef {
    /// The block's instructions, in order.
    pub fn instructions(&self, m: &Module) -> (r: Vec<InstructionRef>)
        requires
            self.0 < m.blocks@.len(),
        ensures
            r@.len() == m.blocks@[self.0 as int].insts@.len(),
            forall|k: int| 0 <= k < r@.len() ==> (#[trigger] r@[k]).0 == m.blocks@[self.0 as int].insts@[k],
    {
        raw_bb_instructions(m, self.0)
    }

    /// The name of the block (e.g. "bb", "panic", "return").
    pub fn name<'a>(&self, m: &'a Module) -> (r: &'a str)
        requires
            self.0 < m.blocks@.len(),
        ensures
            r@ == m.blocks@[self.0 as int].name@,
    {
        m.blocks[self.0].name.as_str()
    }

    pub fn raw_bb(&self) -> (r: usize)
        ensures
            r == self.0,
    {
        self.0
    }

    /// The terminator instruction of the block, if it has one.
    pub fn terminator(&self, m: &Module) -> (r: Option<InstructionRef>)
        requires
            m.wf(),
            self.0 < m.blocks@.len(),
        ensures
            r matches Some(i) ==> m.terminator(self.0 as int) == Some(i.0),
            r is None <==> m.terminator(self.0 as int) is None,
    {
        assert(m.block_wf(self.0 as int));
        let insts = &m.blocks[self.0].insts;
        if insts.len() == 0 {
            return None;
        }
        let last = insts[insts.len() - 1];
        match m.inst_data(last) {
            Some(i) => {
                if opcode_is_terminator_exec(i.opcode) {
                    Some(InstructionRef(last))
                } else {
                    None
                }
            },
            None => None,
        }
    }
}

pub fn opcode_is_terminator_exec(op: Opcode) -> (r: bool)
    ensures
        r == opcode_is_terminator(op),
{
    match op {
        Opcode::Ret | Opcode::Br | Opcode::Switch | Opcode::IndirectBr | Opcode::Invoke
        | Opcode::Unreachable | Opcode::CallBr | Opcode::Resume | Opcode::CleanupRet
        | Opcode::CatchRet | Opcode::CatchSwitch => true,
        _ => false,
    }
}

/// The instructions of block `bb`, in order.
pub fn raw_bb_instructions(m: &Module, bb: usize) -> (r: Vec<InstructionRef>)
    requires
        bb < m.blocks@.len(),
    ensures
        r@.len() == m.blocks@[bb as int].insts@.len(),
        forall|k: int| 0 <= k < r@.len() ==> (#[trigger] r@[k]).0 == m.blocks@[bb as int].insts@[k],
{
    let is = &m.blocks[bb].insts;
    let mut r: Vec<InstructionRef> = Vec::new();
    let n = is.len();
    for k in 0..n
        invariant
            n == is@.len(),
            is@ == m.blocks@[bb as int].insts@,
            r@.len() == k,
            forall|j: int| 0 <= j < k ==> (#[trigger] r@[j]).0 == is@[j],
    {
        r.push(InstructionRef(is[k]));
    }
    r
}

/// Every instruction in every basic block of `func`, in layout order.
pub fn all_instructions(m: &Module, func: &FunctionRef) -> (r: Vec<InstructionRef>)
    requires
        m.wf(),
        func.0 < m.functions@.len(),
    ensures
        r@.len() == fn_insts(m, func.0 as int).len(),
        forall|k: int| 0 <= k < r@.len() ==> (#[trigger] r@[k]).0 == fn_insts(m, func.0 as int)[k],
        forall|k: int| 0 <= k < r@.len() ==> (#[trigger] r@[k]).0 < m.values@.len(),
{
    let is = m.function_insts(func.0);
    let mut r: Vec<InstructionRef> = Vec::new();
    let n = is.len();
    for k in 0..n
        invariant
            n == is@.len(),
            is@ == fn_insts(m, func.0 as int),
            all_below(is@, m.nvalues()),
            r@.len() == k,
            forall|j: int| 0 <= j < k ==> (#[trigger] r@[j]).0 == is@[j],
    {
        r.push(InstructionRef(is[k]));
    }
    r
}

/// The name of value `v` ("" when it has none).
pub fn raw_value_name<'a>(m: &'a Module, v: usize) -> (r: &'a str)
    requires
        v < m.values@.len(),
    ensures
        r@ == m.value_name(v as int),
{
    m.values[v].name.as_str()
}

/// The printed type of value `v` ("" when it has no type).
pub fn value_type_string(m: &Module, v: usize) -> (r: String)
    requires
        v < m.values@.len(),
    ensures
        r@ == m.type_text(v as int),
{
    match &m.values[v].ty {
        Some(t) => t.text.clone(),
        None => String::new(),
    }
}

/// The users of value `v`, in use-list order.
pub fn value_users(m: &Module, v: usize) -> (r: &Vec<usize>)
    requires
        v < m.values@.len(),
    ensures
        r@ == m.values@[v as int].users@,
{
    &m.values[v].users
}

impl Module {
    pub open spec fn type_text(&self, v: int) -> Seq<char> {
        match self.values[v].ty {
            Some(t) => t.text@,
            None => Seq::empty(),
        }
    }
}

impl InstructionRef {
    pub fn debug_loc(&self, m: &Module) -> (r: Option<DebugLoc>)
        requires
            self.0 < m.values@.len(),
        ensures
            r matches Some(l) ==> m.debug_loc(self.0 as int) matches Some(k) && l.filename@
                == k.filename@ && l.line == k.line,
            r is None <==> m.debug_loc(self.0 as int) is None,
    {
        match m.inst_data(self.0) {
            Some(i) => match &i.debug_loc {
                Some(l) => Some(DebugLoc { filename: l.filename.clone(), line: l.line }),
                None => None,
            },
            None => None,
        }
    }

    /// If this is a direct function call/invoke, the callee's name (when not empty).
    pub fn called_fn_name<'a>(&self, m: &'a Module) -> (r: Option<&'a str>)
        requires
            m.wf(),
            self.0 < m.values@.len(),
        ensures
            r matches Some(n) ==> m.called_fn_name(self.0 as int) == Some(n@),
            r is None <==> m.called_fn_name(self.0 as int) is None,
    {
        match m.direct_callee(self.0) {
            Some(f) => {
                assert(m.function_wf(f as int));
                let n = m.values[m.functions[f].value].name.as_str();
                if n.is_empty() {
                    None
                } else {
                    Some(n)
                }
            },
            None => None,
        }
    }

    pub fn is_call(&self, m: &Module) -> (r: bool)
        requires
            self.0 < m.values@.len(),
        ensures
            r == m.is_call(self.0 as int),
    {
        match m.inst_data(self.0) {
            Some(i) => match i.opcode {
                Opcode::Call | Opcode::Invoke => true,
                _ => false,
            },
            None => false,
        }
    }

    /// Number of call-argument operands (excludes the callee operand).
    pub fn num_args(&self, m: &Module) -> (r: usize)
        requires
            self.0 < m.values@.len(),
        ensures
            r == m.args(self.0 as int).len(),
    {
        match m.inst_data(self.0) {
            Some(i) => i.args.len(),
            None => 0,
        }
    }

    /// The `i`-th argument operand of a call.
    pub fn get_arg(&self, m: &Module, i: usize) -> (r: usize)
        requires
            m.wf(),
            self.0 < m.values@.len(),
            i < m.args(self.0 as int).len(),
        ensures
            r == m.args(self.0 as int)[i as int],
            r < m.values@.len(),
    {
        assert(m.value_wf(self.0 as int));
        let d = m.inst_data(self.0).unwrap();
        d.args[i]
    }

    /// The opcode of this instruction.
    pub fn opcode(&self, m: &Module) -> (r: Opcode)
        requires
            m.is_inst(self.0 as int),
        ensures
            m.inst(self.0 as int) matches Some(i) && r == i.opcode,
    {
        m.inst_data(self.0).unwrap().opcode
    }

    /// True if this is an integer or float multiplication.
    pub fn is_mul(&self, m: &Module) -> (r: bool)
        requires
            self.0 < m.values@.len(),
        ensures
            r == (m.has_opcode(self.0 as int, Opcode::Mul) || m.has_opcode(self.0 as int, Opcode::FMul)),
    {
        match m.inst_data(self.0) {
            Some(i) => match i.opcode {
                Opcode::Mul | Opcode::FMul => true,
                _ => false,
            },
            None => false,
        }
    }

    /// True if this is an integer or float division.
    pub fn is_div(&self, m: &Module) -> (r: bool)
        requires
            self.0 < m.values@.len(),
        ensures
            r == (m.has_opcode(self.0 as int, Opcode::UDiv) || m.has_opcode(self.0 as int, Opcode::SDiv)
                || m.has_opcode(self.0 as int, Opcode::FDiv)),
    {
        match m.inst_data(self.0) {
            Some(i) => match i.opcode {
                Opcode::UDiv | Opcode::SDiv | Opcode::FDiv => true,
                _ => false,
            },
            None => false,
        }
    }

    /// The printed type of the `i`-th call argument.
    pub fn arg_type_string(&self, m: &Module, i: usize) -> (r: String)
        requires
            m.wf(),
            self.0 < m.values@.len(),
            i < m.args(self.0 as int).len(),
        ensures
            r@ == m.type_text(m.args(self.0 as int)[i as int] as int),
    {
        let a = self.get_arg(m, i);
        value_type_string(m, a)
    }

    pub fn raw(&self) -> (r: usize)
        ensures
            r == self.0,
    {
        self.0
    }

    pub fn is_store(&self, m: &Module) -> (r: bool)
        requires
            self.0 < m.values@.len(),
        ensures
            r == m.has_opcode(self.0 as int, Opcode::Store),
    {
        match m.inst_data(self.0) {
            Some(i) => match i.opcode {
                Opcode::Store => true,
                _ => false,
            },
            None => false,
        }
    }

    pub fn is_switch(&self, m: &Module) -> (r: bool)
        requires
            self.0 < m.values@.len(),
        ensures
            r == m.has_opcode(self.0 as int, Opcode::Switch),
    {
        match m.inst_data(self.0) {
            Some(i) => match i.opcode {
                Opcode::Switch => true,
                _ => false,
            },
            None => false,
        }
    }

    pub fn is_branch(&self, m: &Module) -> (r: bool)
        requires
            self.0 < m.values@.len(),
        ensures
            r == m.has_opcode(self.0 as int, Opcode::Br),
    {
        match m.inst_data(self.0) {
            Some(i) => match i.opcode {
                Opcode::Br => true,
                _ => false,
            },
            None => false,
        }
    }

    pub fn is_return(&self, m: &Module) -> (r: bool)
        requires
            self.0 < m.values@.len(),
        ensures
            r == m.has_opcode(self.0 as int, Opcode::Ret),
    {
        match m.inst_data(self.0) {
            Some(i) => match i.opcode {
                Opcode::Ret => true,
                _ => false,
            },
            None => false,
        }
    }

    pub fn num_operands(&self, m: &Module) -> (r: usize)
        requires
            self.0 < m.values@.len(),
        ensures
            r == m.operands(self.0 as int).len(),
    {
        match m.inst_data(self.0) {
            Some(i) => i.operands.len(),
            None => 0,
        }
    }

    pub fn get_operand(&self, m: &Module, i: usize) -> (r: usize)
        requires
            m.wf(),
            self.0 < m.values@.len(),
            i < m.operands(self.0 as int).len(),
        ensures
            r == m.operands(self.0 as int)[i as int],
            r < m.values@.len(),
    {
        assert(m.value_wf(self.0 as int));
        m.inst_data(self.0).unwrap().operands[i]
    }

    /// Number of successors of a terminator.
    pub fn num_successors(&self, m: &Module) -> (r: usize)
        requires
            self.0 < m.values@.len(),
        ensures
            r == m.successors(self.0 as int).len(),
    {
        match m.inst_data(self.0) {
            Some(i) => i.successors.len(),
            None => 0,
        }
    }

    /// The `i`-th successor block of a terminator.
    pub fn get_successor(&self, m: &Module, i: usize) -> (r: usize)
        requires
            m.wf(),
            self.0 < m.values@.len(),
            i < m.successors(self.0 as int).len(),
        ensures
            r == m.successors(self.0 as int)[i as int],
            r < m.blocks@.len(),
    {
        assert(m.value_wf(self.0 as int));
        m.inst_data(self.0).unwrap().successors[i]
    }
}

} // verus!
