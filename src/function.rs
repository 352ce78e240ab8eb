//! Function bodies as ordered instruction sequences, and their partition
//! into basic blocks.
use vstd::prelude::*;
use vstd::string::StringExecFns;
use crate::instruction::{Instruction, Symbol, SymbolKey, Type, Value};

verus! {

/// Whether a value reads the storage location `k`.
pub open spec fn value_reads(v: Value, k: SymbolKey) -> bool {
    match v {
        Value::StorageLocation(s) => s@ == k,
        Value::ConstantLiteral(_) => false,
    }
}

/// Whether an instruction reads the storage location `k`: as one of its
/// operands, as a branch condition or as a call argument.
pub open spec fn reads(inst: Instruction, k: SymbolKey) -> bool {
    match inst {
        Instruction::Branch(c, _, _) => c@ == k,
        Instruction::Call(_, args) => exists|j: int|
            0 <= j < args@.len() && value_reads(#[trigger] args@[j], k),
        _ => {
            ||| (inst.spec_operands().0 is Some && value_reads(inst.spec_operands().0.unwrap(), k))
            ||| (inst.spec_operands().1 is Some && value_reads(inst.spec_operands().1.unwrap(), k))
        },
    }
}

/// Whether some instruction of `s` reads `k`.
pub open spec fn read_in(s: Seq<Instruction>, k: SymbolKey) -> bool {
    exists|j: int| 0 <= j < s.len() && reads(#[trigger] s[j], k)
}

/// Whether some instruction of `s` writes `k`.
pub open spec fn defined_in(s: Seq<Instruction>, k: SymbolKey) -> bool {
    exists|j: int|
        0 <= j < s.len() && (#[trigger] s[j]).spec_destination() is Some
            && s[j].spec_destination().unwrap()@ == k
}

/// `s` without its `Nop` instructions, the others kept in order.
pub open spec fn strip_nops(s: Seq<Instruction>) -> Seq<Instruction>
    decreases s.len(),
{
    if s.len() == 0 {
        s
    } else if s[0] is Nop {
        strip_nops(s.drop_first())
    } else {
        seq![s[0]] + strip_nops(s.drop_first())
    }
}

/// Whether a value reads the symbol `k`.
pub fn value_reads_symbol(v: &Value, k: &Symbol) -> (r: bool)
    ensures
        r == value_reads(*v, k@),
{
    match v {
        Value::StorageLocation(s) => s.same(k),
        Value::ConstantLiteral(_) => false,
    }
}

/// Whether one of the call arguments `args` reads the symbol `k`.
fn args_read_symbol(args: &Vec<Value>, k: &Symbol) -> (r: bool)
    ensures
        r == exists|j: int| 0 <= j < args@.len() && value_reads(#[trigger] args@[j], k@),
{
    let mut j: usize = 0;
    while j < args.len()
        invariant
            j <= args@.len(),
            forall|m: int| 0 <= m < j ==> !value_reads(#[trigger] args@[m], k@),
        decreases args@.len() - j,
    {
        if value_reads_symbol(&args[j], k) {
            assert(value_reads(args@[j as int], k@));
            return true;
        }
        j = j + 1;
    }
    false
}

/// Whether an instruction reads the symbol `k`.
pub fn reads_symbol(inst: &Instruction, k: &Symbol) -> (r: bool)
    ensures
        r == reads(*inst, k@),
{
    match inst {
        Instruction::Branch(c, _, _) => c.same(k),
        Instruction::Call(_, args) => args_read_symbol(args, k),
        _ => {
            let (a, b) = inst.operands();
            let ra = match a {
                Some(v) => value_reads_symbol(v, k),
                None => false,
            };
            let rb = match b {
                Some(v) => value_reads_symbol(v, k),
                None => false,
            };
            ra || rb
        },
    }
}

/// Whether some instruction of `s` reads the symbol `k`.
pub fn is_read_in(s: &Vec<Instruction>, k: &Symbol) -> (r: bool)
    ensures
        r == read_in(s@, k@),
{
    let mut j: usize = 0;
    while j < s.len()
        invariant
            j <= s@.len(),
            forall|m: int| 0 <= m < j ==> !reads(#[trigger] s@[m], k@),
        decreases s@.len() - j,
    {
        if reads_symbol(&s[j], k) {
            return true;
        }
        j = j + 1;
    }
    false
}

/// A function: a name, a return type and an ordered body of instructions.
pub struct Function {
    name: String,
    return_type: Type,
    instructions: Vec<Instruction>,
}

impl View for Function {
    type V = Seq<Instruction>;

    closed spec fn view(&self) -> Seq<Instruction> {
        self.instructions@
    }
}

impl Function {
    /// The function's name.
    pub closed spec fn spec_name(&self) -> Seq<char> {
        self.name@
    }

    /// The function's return type.
    pub closed spec fn spec_return_type(&self) -> Type {
        self.return_type
    }

    /// The function's name.
    pub fn name(&self) -> (r: &String)
        ensures
            r@ == self.spec_name(),
    {
        &self.name
    }

    /// The function's return type.
    pub fn return_type(&self) -> (r: Type)
        ensures
            r == self.spec_return_type(),
    {
        self.return_type
    }

    /// A function with the given name and return type and an empty body.
    pub fn new(name: &str, return_type: Type) -> (r: Function)
        ensures
            r@ == Seq::<Instruction>::empty(),
            r.spec_name() == name@,
            r.spec_return_type() == return_type,
    {
        Function { name: String::from_str(name), return_type, instructions: Vec::new() }
    }

    /// Append an instruction to the body.
    pub fn push(&mut self, inst: Instruction)
        ensures
            final(self)@ == old(self)@.push(inst),
            final(self).spec_name() == old(self).spec_name(),
            final(self).spec_return_type() == old(self).spec_return_type(),
    {
        self.instructions.push(inst);
    }

    /// Number of instructions in the body.
    pub fn len(&self) -> (r: usize)
        ensures
            r == self@.len(),
    {
        self.instructions.len()
    }

    /// The body, in order.
    pub fn instructions(&self) -> (r: &Vec<Instruction>)
        ensures
            r@ == self@,
    {
        &self.instructions
    }

    /// Put `inst` in place of the instruction at `index`, returning the one
    /// that stood there.
    pub fn replace(&mut self, index: usize, inst: Instruction) -> (r: Instruction)
        requires
            index < old(self)@.len(),
        ensures
            final(self)@ == old(self)@.update(index as int, inst),
            r == old(self)@[index as int],
            final(self).spec_name() == old(self).spec_name(),
            final(self).spec_return_type() == old(self).spec_return_type(),
    {
        let mut inst = inst;
        std::mem::swap(&mut inst, &mut self.instructions[index]);
        inst
    }

    /// Remove every `Nop` from the body, keeping the others in order.
    pub fn remove_dead_instructions(&mut self)
        ensures
            final(self)@ == strip_nops(old(self)@),
            final(self).spec_name() == old(self).spec_name(),
            final(self).spec_return_type() == old(self).spec_return_type(),
    {
        let mut i: usize = 0;
        assert(self@.subrange(0, 0) =~= Seq::<Instruction>::empty());
        assert(self@.subrange(0, self@.len() as int) =~= self@);
        while i < self.instructions.len()
            invariant
                i <= self@.len(),
                strip_nops(old(self)@) == self@.subrange(0, i as int) + strip_nops(
                    self@.subrange(i as int, self@.len() as int),
                ),
                self.name == old(self).name,
                self.return_type == old(self).return_type,
            decreases self@.len() - i,
        {
            let ghost before = self@;
            let ghost rest = before.subrange(i as int, before.len() as int);
            assert(rest.drop_first() =~= before.subrange(i + 1, before.len() as int));
            if matches!(self.instructions[i], Instruction::Nop) {
                self.instructions.remove(i);
                assert(self@.subrange(0, i as int) =~= before.subrange(0, i as int));
                assert(self@.subrange(i as int, self@.len() as int) =~= rest.drop_first());
            } else {
                assert(before.subrange(0, i + 1) =~= before.subrange(0, i as int) + seq![
                    before[i as int],
                ]);
                i = i + 1;
            }
        }
        assert(self@.subrange(0, i as int) =~= self@);
        assert(self@.subrange(i as int, self@.len() as int) =~= Seq::<Instruction>::empty());
    }
}

/// Whether an instruction ends a basic block: a jump, a branch or a return.
pub open spec fn ends_block(inst: Instruction) -> bool {
    inst is Jump || inst is Branch || inst is Return
}

/// Whether a basic block starts at index `i` of `s`: the first
/// instruction, every label, and every instruction after a block end.
pub open spec fn starts_block(s: Seq<Instruction>, i: int) -> bool {
    i == 0 || s[i] is Label || ends_block(s[i - 1])
}

/// Whether `blocks` is the partition of `s` into maximal basic blocks, each
/// given as a half-open index range.
pub open spec fn is_block_partition(s: Seq<Instruction>, blocks: Seq<(usize, usize)>) -> bool {
    &&& (s.len() == 0 <==> blocks.len() == 0)
    &&& blocks.len() > 0 ==> blocks[0].0 == 0 && blocks.last().1 == s.len()
    &&& forall|b: int|
        0 <= b < blocks.len() ==> (#[trigger] blocks[b]).0 < blocks[b].1 && starts_block(
            s,
            blocks[b].0 as int,
        )
    &&& forall|b: int| 0 <= b < blocks.len() - 1 ==> (#[trigger] blocks[b]).1 == blocks[b + 1].0
    &&& forall|b: int, i: int|
        #![trigger blocks[b], starts_block(s, i)]
        0 <= b < blocks.len() && blocks[b].0 < i < blocks[b].1 ==> !starts_block(
            s,
            i,
        )
}

/// Whether a basic block starts at index `i` of `s`.
fn block_starts_at(s: &Vec<Instruction>, i: usize) -> (r: bool)
    requires
        i < s@.len(),
    ensures
        r == starts_block(s@, i as int),
{
    if i == 0 {
        return true;
    }
    let is_label = matches!(s[i], Instruction::Label(..));
    let after_end = match &s[i - 1] {
        Instruction::Jump(..) | Instruction::Branch(..) | Instruction::Return(..) => true,
        _ => false,
    };
    is_label || after_end
}

/// Split a function body into its maximal basic blocks, as half-open index
/// ranges in order.
pub fn form_basic_blocks(function: &Function) -> (r: Vec<(usize, usize)>)
    ensures
        is_block_partition(function@, r@),
{
    let s = function.instructions();
    let n = s.len();
    let mut blocks: Vec<(usize, usize)> = Vec::new();
    if n == 0 {
        return blocks;
    }
    let mut start: usize = 0;
    let mut i: usize = 1;
    while i < n
        invariant
            n == s@.len(),
            s@ == function@,
            start < i <= n,
            starts_block(s@, start as int),
            forall|j: int| start < j < i ==> !starts_block(s@, j),
            blocks@.len() > 0 ==> blocks@[0].0 == 0 && blocks@.last().1 == start,
            blocks@.len() == 0 ==> start == 0,
            forall|b: int|
                0 <= b < blocks@.len() ==> (#[trigger] blocks@[b]).0 < blocks@[b].1
                    && starts_block(s@, blocks@[b].0 as int),
            forall|b: int|
                0 <= b < blocks@.len() - 1 ==> (#[trigger] blocks@[b]).1 == blocks@[b + 1].0,
            forall|b: int, j: int|
                #![trigger blocks@[b], starts_block(s@, j)]
                0 <= b < blocks@.len() && blocks@[b].0 < j < blocks@[b].1
                    ==> !starts_block(s@, j),
        decreases n - i,
    {
        if block_starts_at(s, i) {
            blocks.push((start, i));
            start = i;
        }
        i = i + 1;
    }
    blocks.push((start, n));
    blocks
}

/// The index where the block that starts at `i` ends: the next block
/// start, or the end of `s`.
pub open spec fn next_start(s: Seq<Instruction>, i: int) -> int
    decreases s.len() - i,
{
    if i + 1 >= s.len() {
        s.len() as int
    } else if starts_block(s, i + 1) {
        i + 1
    } else {
        next_start(s, i + 1)
    }
}

proof fn lemma_next_start(s: Seq<Instruction>, i: int, j: int)
    requires
        0 <= i < j <= s.len(),
        forall|k: int| i < k < j ==> !starts_block(s, k),
        j == s.len() || starts_block(s, j),
    ensures
        next_start(s, i) == j,
    decreases j - i,
{
    if i + 1 < j {
        lemma_next_start(s, i + 1, j);
    }
}

/// Each block of a partition lies within the sequence.
pub proof fn lemma_partition_bounds(s: Seq<Instruction>, blocks: Seq<(usize, usize)>, b: int)
    requires
        is_block_partition(s, blocks),
        0 <= b < blocks.len(),
    ensures
        blocks[b].0 < blocks[b].1 <= s.len(),
    decreases blocks.len() - b,
{
    if b + 1 < blocks.len() {
        lemma_partition_bounds(s, blocks, b + 1);
    }
}

/// Each block of a partition ends at the next block start.
proof fn lemma_partition_ends(s: Seq<Instruction>, blocks: Seq<(usize, usize)>, b: int)
    requires
        is_block_partition(s, blocks),
        0 <= b < blocks.len(),
    ensures
        blocks[b].1 == next_start(s, blocks[b].0 as int),
{
    lemma_partition_bounds(s, blocks, b);
    if b + 1 < blocks.len() {
        assert(blocks[b].1 == blocks[b + 1].0);
        assert(starts_block(s, blocks[b + 1].0 as int));
    }
    assert forall|k: int| blocks[b].0 < k < blocks[b].1 implies !starts_block(s, k) by {
        assert(0 <= b < blocks.len() && blocks[b].0 < k < blocks[b].1);
    }
    lemma_next_start(s, blocks[b].0 as int, blocks[b].1 as int);
}

proof fn lemma_partition_prefix(s: Seq<Instruction>, p: Seq<(usize, usize)>, q: Seq<(usize, usize)>, b: int)
    requires
        is_block_partition(s, p),
        is_block_partition(s, q),
        0 <= b < p.len(),
        b < q.len(),
    ensures
        p[b] == q[b],
    decreases b,
{
    if b > 0 {
        lemma_partition_prefix(s, p, q, b - 1);
        lemma_partition_ends(s, p, b - 1);
        lemma_partition_ends(s, q, b - 1);
    }
    lemma_partition_ends(s, p, b);
    lemma_partition_ends(s, q, b);
}

/// A sequence has one partition into maximal basic blocks.
pub proof fn lemma_partition_unique(s: Seq<Instruction>, p: Seq<(usize, usize)>, q: Seq<(usize, usize)>)
    requires
        is_block_partition(s, p),
        is_block_partition(s, q),
    ensures
        p == q,
{
    assert forall|b: int| 0 <= b < p.len() && b < q.len() implies p[b] == q[b] by {
        lemma_partition_prefix(s, p, q, b);
    }
    if p.len() < q.len() {
        let m = p.len() as int;
        lemma_partition_prefix(s, p, q, m - 1);
        assert(q[m - 1].1 == q[m].0);
        lemma_partition_bounds(s, q, m);
    } else if q.len() < p.len() {
        let m = q.len() as int;
        lemma_partition_prefix(s, p, q, m - 1);
        assert(p[m - 1].1 == p[m].0);
        lemma_partition_bounds(s, p, m);
    }
    assert(p =~= q);
}

} // verus!
