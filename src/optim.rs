//! Transforms over IR functions: the pass interface, the identity pass,
//! local value numbering and trivial global dead-code elimination.
use vstd::prelude::*;
use crate::function::{
    defined_in, form_basic_blocks, is_block_partition, is_read_in, lemma_partition_bounds,
    lemma_partition_unique, read_in, reads, starts_block, strip_nops, Function,
};
use crate::instruction::Instruction;
use crate::numbering::{folds_to, number_block, op_parts, recomputes, rewrite_of, writes};
use crate::semantics::{run, Env};

verus! {

/// A pass that rewrites one function in place.
pub trait Transform {
    /// Whether `after` is what the pass makes of `before`.
    spec fn rewrites(&self, before: Function, after: Function) -> bool;

    /// Rewrite `function` in place.
    fn run(&self, function: &mut Function)
        ensures
            self.rewrites(*old(function), *final(function)),
    ;
}

/// Applies passes to functions.
pub struct FunctionRewriter {}

impl FunctionRewriter {
    /// Rewrite `function` in place with `transform`.
    pub fn rewrite<T: Transform>(function: &mut Function, transform: &T)
        ensures
            transform.rewrites(*old(function), *final(function)),
    {
        transform.run(function)
    }
}

/// The identity transform: it leaves the function as it is.
pub struct Identity {}

impl Transform for Identity {
    open spec fn rewrites(&self, before: Function, after: Function) -> bool {
        after@ == before@ && after.spec_name() == before.spec_name() && after.spec_return_type()
            == before.spec_return_type()
    }

    fn run(&self, function: &mut Function) {
    }
}

/// Whether `after` is what local value numbering makes of the body
/// `before`. The two have the same length and the same blocks. Only pure
/// operations are rewritten, each into a `Const` of its destination or a
/// copy of a symbol into it. Each block, and each of its prefixes, run
/// from any bindings on entry, has the same outcome as before: the same
/// bindings, or no result where it had none; so a copy that replaces an
/// operation reads a symbol that holds the operation's value there.
/// Within a block, an operation on operands of known literal becomes the
/// `Const` of its result where it has one; a symbol is of known literal
/// when last written by a `Const`, by a copy of a known literal, or by
/// such a fold. An operation that recomputes one still available (its
/// operands and the symbol it was written to not written since), on the
/// same operands or on symbols holding copies of them, becomes a `Const`
/// or a copy. These last two hold for bodies shorter than a quarter of the
/// address space, which bounds the count of value numbers.
pub open spec fn lvn_result(before: Seq<Instruction>, after: Seq<Instruction>) -> bool {
    &&& after.len() == before.len()
    &&& forall|i: int|
            0 <= i < before.len() ==> #[trigger] after[i] == before[i]
                || (writes(before[i]) && after[i].spec_destination()
                == before[i].spec_destination())
    &&& forall|i: int|
            0 <= i < before.len() ==> #[trigger] starts_block(after, i)
                == starts_block(before, i)
    &&& forall|blocks: Seq<(usize, usize)>|
            #[trigger] is_block_partition(before, blocks) ==> forall|b: int, i: int, e0: Env|
                0 <= b < blocks.len() && blocks[b].0 <= i <= blocks[b].1 ==> run(
                    e0,
                    after.subrange(blocks[b].0 as int, i),
                ) == #[trigger] run(e0, before.subrange(blocks[b].0 as int, i))
    &&& forall|i: int|
            0 <= i < before.len() ==> #[trigger] after[i] == before[i] || (op_parts(before[i]) is Some
                && rewrite_of(after[i], op_parts(before[i]).unwrap().1))
    &&& before.len() < usize::MAX / 4 ==> forall|blocks: Seq<(usize, usize)>, b: int, i: int|
            #![trigger is_block_partition(before, blocks), blocks[b], after[i]]
            is_block_partition(before, blocks) && 0 <= b < blocks.len() && blocks[b].0 <= i
                < blocks[b].1 ==> (folds_to(before.subrange(blocks[b].0 as int, i), before[i]) matches Some(
                c,
            ) ==> after[i] == c)
    &&& before.len() < usize::MAX / 4 ==> forall|blocks: Seq<(usize, usize)>, b: int, i: int|
            #![trigger is_block_partition(before, blocks), blocks[b], after[i]]
            is_block_partition(before, blocks) && 0 <= b < blocks.len() && blocks[b].0 <= i
                < blocks[b].1 && recomputes(before.subrange(blocks[b].0 as int, i), before[i])
                ==> (after[i] is Const || after[i] is Id)
}

/// Local value numbering: constant folding, common-subexpression
/// elimination and copy propagation within each basic block.
pub struct LVN {}

impl LVN {
    /// Run local value numbering on each basic block of `function`; the
    /// result is described by `lvn_result`.
    pub fn run(&self, function: &mut Function)
        ensures
            lvn_result(old(function)@, final(function)@),
            final(function).spec_name() == old(function).spec_name(),
            final(function).spec_return_type() == old(function).spec_return_type(),
    {
        let blocks = form_basic_blocks(function);
        let ghost orig = function@;
        let mut b: usize = 0;
        proof {
            reveal(runs_done);
            reveal(folds_done);
            reveal(copies_done);
        }
        while b < blocks.len()
            invariant
                is_block_partition(orig, blocks@),
                orig == old(function)@,
                b <= blocks@.len(),
                function@.len() == orig.len(),
                function.spec_name() == old(function).spec_name(),
                function.spec_return_type() == old(function).spec_return_type(),
                same_shape(orig, function@),
                b < blocks@.len() ==> untouched_from(orig, function@, blocks@[b as int].0 as int),
                runs_done(orig, function@, blocks@, b as int),
                orig.len() < usize::MAX / 4 ==> folds_done(orig, function@, blocks@, b as int),
                orig.len() < usize::MAX / 4 ==> copies_done(orig, function@, blocks@, b as int),
            decreases blocks@.len() - b,
        {
            number_nth_block(function, &blocks, b, Ghost(orig));
            b = b + 1;
        }
        proof {
            reveal(runs_done);
            reveal(folds_done);
            reveal(copies_done);
        }
        assert forall|other: Seq<(usize, usize)>| #[trigger] is_block_partition(orig, other) implies other
            == blocks@ by {
            lemma_partition_unique(orig, other, blocks@);
        }
        assert forall|i: int| 0 <= i < orig.len() implies #[trigger] starts_block(function@, i)
            == starts_block(orig, i) by {
            if i > 0 {
                assert(function@[i - 1] == orig[i - 1] || writes(orig[i - 1]));
            }
        }
    }
}

/// Whether each instruction of `now` is the one of `orig`, or one that
/// writes the same destination in place of one that writes.
pub open spec fn same_shape(orig: Seq<Instruction>, now: Seq<Instruction>) -> bool {
    &&& now.len() == orig.len()
    &&& forall|i: int|
        0 <= i < orig.len() ==> #[trigger] now[i] == orig[i] || (op_parts(orig[i]) is Some && rewrite_of(
            now[i],
            op_parts(orig[i]).unwrap().1,
        ))
    &&& forall|i: int|
        0 <= i < orig.len() ==> #[trigger] now[i] == orig[i] || (writes(orig[i])
            && now[i].spec_destination() == orig[i].spec_destination())
}

/// Whether `now` agrees with `orig` from index `from` on.
pub open spec fn untouched_from(orig: Seq<Instruction>, now: Seq<Instruction>, from: int) -> bool {
    forall|i: int| from <= i < orig.len() ==> #[trigger] now[i] == orig[i]
}

/// Whether, in the blocks before `b`, every foldable operation of `orig`
/// stands folded in `now`.
#[verifier::opaque]
pub open spec fn folds_done(orig: Seq<Instruction>, now: Seq<Instruction>, blocks: Seq<(usize, usize)>, b: int) -> bool {
    forall|c: int, i: int|
        #![trigger blocks[c], now[i]]
        0 <= c < b && blocks[c].0 <= i < blocks[c].1 ==> (folds_to(orig.subrange(blocks[c].0 as int, i), orig[i]) matches Some(
            f,
        ) ==> now[i] == f)
}

/// Whether, in the blocks before `b`, every operation of `orig` that
/// recomputes one still available in its block stands in `now` as a
/// `Const` or a copy.
#[verifier::opaque]
pub open spec fn copies_done(orig: Seq<Instruction>, now: Seq<Instruction>, blocks: Seq<(usize, usize)>, b: int) -> bool {
    forall|c: int, i: int|
        #![trigger blocks[c], now[i]]
        0 <= c < b && blocks[c].0 <= i < blocks[c].1 && recomputes(orig.subrange(blocks[c].0 as int, i), orig[i])
            ==> (now[i] is Const || now[i] is Id)
}

proof fn lemma_copies_step(
    orig: Seq<Instruction>,
    before: Seq<Instruction>,
    after: Seq<Instruction>,
    blocks: Seq<(usize, usize)>,
    b: int,
)
    requires
        is_block_partition(orig, blocks),
        0 <= b < blocks.len(),
        before.len() == orig.len(),
        after.len() == orig.len(),
        copies_done(orig, before, blocks, b),
        untouched_from(orig, before, blocks[b].0 as int),
        forall|i: int|
            0 <= i < orig.len() && (i < blocks[b].0 || i >= blocks[b].1) ==> #[trigger] after[i] == before[i],
        forall|i: int|
            blocks[b].0 <= i < blocks[b].1 && recomputes(before.subrange(blocks[b].0 as int, i), before[i])
                ==> (#[trigger] after[i] is Const || after[i] is Id),
    ensures
        copies_done(orig, after, blocks, b + 1),
{
    reveal(copies_done);
    lemma_partition_bounds(orig, blocks, b);
    assert forall|c: int, i: int|
        #![trigger blocks[c], after[i]]
        0 <= c < b + 1 && blocks[c].0 <= i < blocks[c].1 && recomputes(orig.subrange(blocks[c].0 as int, i), orig[i])
        implies (after[i] is Const || after[i] is Id) by {
        lemma_partition_bounds(orig, blocks, c);
        if c < b {
            lemma_partition_ordered(orig, blocks, c, b);
            assert(after[i] == before[i]);
        } else {
            assert(before.subrange(blocks[b].0 as int, i) =~= orig.subrange(blocks[b].0 as int, i));
            assert(before[i] == orig[i]);
        }
    }
}

/// Whether the blocks before `b` give in `now` the bindings they gave in
/// `orig`, wherever those had a result.
#[verifier::opaque]
pub open spec fn runs_done(orig: Seq<Instruction>, now: Seq<Instruction>, blocks: Seq<(usize, usize)>, b: int) -> bool {
    forall|c: int, i: int, e0: Env|
        0 <= c < b && blocks[c].0 <= i <= blocks[c].1 ==> run(e0, now.subrange(blocks[c].0 as int, i))
            == #[trigger] run(e0, orig.subrange(blocks[c].0 as int, i))
}

proof fn lemma_runs_step(
    orig: Seq<Instruction>,
    before: Seq<Instruction>,
    after: Seq<Instruction>,
    blocks: Seq<(usize, usize)>,
    b: int,
)
    requires
        is_block_partition(orig, blocks),
        0 <= b < blocks.len(),
        before.len() == orig.len(),
        after.len() == orig.len(),
        runs_done(orig, before, blocks, b),
        untouched_from(orig, before, blocks[b].0 as int),
        forall|i: int|
            0 <= i < orig.len() && (i < blocks[b].0 || i >= blocks[b].1) ==> #[trigger] after[i] == before[i],
        forall|i: int, e0: Env|
            blocks[b].0 <= i <= blocks[b].1 ==> #[trigger] run(e0, before.subrange(blocks[b].0 as int, i))
                == run(e0, after.subrange(blocks[b].0 as int, i)),
    ensures
        runs_done(orig, after, blocks, b + 1),
{
    reveal(runs_done);
    lemma_partition_bounds(orig, blocks, b);
    assert forall|c: int, i: int, e0: Env|
        0 <= c < b + 1 && blocks[c].0 <= i <= blocks[c].1 implies run(e0, after.subrange(blocks[c].0 as int, i))
            == #[trigger] run(e0, orig.subrange(blocks[c].0 as int, i)) by {
        lemma_partition_bounds(orig, blocks, c);
        if c < b {
            lemma_partition_ordered(orig, blocks, c, b);
            assert(after.subrange(blocks[c].0 as int, i) =~= before.subrange(blocks[c].0 as int, i));
        } else {
            assert(before.subrange(blocks[b].0 as int, i) =~= orig.subrange(blocks[b].0 as int, i));
        }
    }
}

proof fn lemma_folds_step(
    orig: Seq<Instruction>,
    before: Seq<Instruction>,
    after: Seq<Instruction>,
    blocks: Seq<(usize, usize)>,
    b: int,
)
    requires
        is_block_partition(orig, blocks),
        0 <= b < blocks.len(),
        before.len() == orig.len(),
        after.len() == orig.len(),
        folds_done(orig, before, blocks, b),
        untouched_from(orig, before, blocks[b].0 as int),
        forall|i: int|
            0 <= i < orig.len() && (i < blocks[b].0 || i >= blocks[b].1) ==> #[trigger] after[i] == before[i],
        forall|i: int|
            blocks[b].0 <= i < blocks[b].1 ==> (folds_to(before.subrange(blocks[b].0 as int, i), before[i]) matches Some(
                f,
            ) ==> #[trigger] after[i] == f),
    ensures
        folds_done(orig, after, blocks, b + 1),
{
    reveal(folds_done);
    lemma_partition_bounds(orig, blocks, b);
    assert forall|c: int, i: int|
        #![trigger blocks[c], after[i]]
        0 <= c < b + 1 && blocks[c].0 <= i < blocks[c].1 && folds_to(orig.subrange(blocks[c].0 as int, i), orig[i]) is Some
        implies after[i] == folds_to(orig.subrange(blocks[c].0 as int, i), orig[i]).unwrap() by {
        lemma_partition_bounds(orig, blocks, c);
        if c < b {
            lemma_partition_ordered(orig, blocks, c, b);
            assert(after[i] == before[i]);
        } else {
            assert(before.subrange(blocks[b].0 as int, i) =~= orig.subrange(blocks[b].0 as int, i));
            assert(after[i] == folds_to(before.subrange(blocks[b].0 as int, i), before[i]).unwrap());
        }
    }
}

/// Number block `b` of the partition `blocks` of `orig`.
fn number_nth_block(function: &mut Function, blocks: &Vec<(usize, usize)>, b: usize, Ghost(orig): Ghost<Seq<Instruction>>)
    requires
        is_block_partition(orig, blocks@),
        b < blocks@.len(),
        same_shape(orig, old(function)@),
        untouched_from(orig, old(function)@, blocks@[b as int].0 as int),
        runs_done(orig, old(function)@, blocks@, b as int),
        orig.len() < usize::MAX / 4 ==> folds_done(orig, old(function)@, blocks@, b as int),
        orig.len() < usize::MAX / 4 ==> copies_done(orig, old(function)@, blocks@, b as int),
    ensures
        final(function).spec_name() == old(function).spec_name(),
        final(function).spec_return_type() == old(function).spec_return_type(),
        same_shape(orig, final(function)@),
        b + 1 < blocks@.len() ==> untouched_from(orig, final(function)@, blocks@[b + 1].0 as int),
        runs_done(orig, final(function)@, blocks@, b + 1),
        orig.len() < usize::MAX / 4 ==> folds_done(orig, final(function)@, blocks@, b + 1),
        orig.len() < usize::MAX / 4 ==> copies_done(orig, final(function)@, blocks@, b + 1),
{
    let (start, end) = blocks[b];
    proof {
        lemma_partition_bounds(orig, blocks@, b as int);
    }
    let ghost before = function@;
    number_block(function, start, end);
    proof {
        lemma_runs_step(orig, before, function@, blocks@, b as int);
        if orig.len() < usize::MAX / 4 {
            lemma_folds_step(orig, before, function@, blocks@, b as int);
            lemma_copies_step(orig, before, function@, blocks@, b as int);
        }
        if b + 1 < blocks@.len() {
            assert(blocks@[b as int].1 == blocks@[b + 1].0);
        }
        assert forall|i: int| 0 <= i < orig.len() implies #[trigger] function@[i] == orig[i] || (writes(orig[i])
            && function@[i].spec_destination() == orig[i].spec_destination()) by {
            if start <= i < end {
                assert(before[i] == orig[i]);
            }
        }
        assert forall|i: int| 0 <= i < orig.len() implies #[trigger] function@[i] == orig[i] || (op_parts(orig[i])
            is Some && rewrite_of(function@[i], op_parts(orig[i]).unwrap().1)) by {
            if start <= i < end {
                assert(before[i] == orig[i]);
            }
        }
    }
}

impl Transform for LVN {
    open spec fn rewrites(&self, before: Function, after: Function) -> bool {
        lvn_result(before@, after@) && after.spec_name() == before.spec_name()
            && after.spec_return_type() == before.spec_return_type()
    }

    fn run(&self, function: &mut Function) {
        LVN::run(self, function)
    }
}

/// An earlier block of a partition ends where a later one starts, or before.
pub proof fn lemma_partition_ordered(s: Seq<Instruction>, blocks: Seq<(usize, usize)>, c: int, b: int)
    requires
        is_block_partition(s, blocks),
        0 <= c < b < blocks.len(),
    ensures
        blocks[c].1 <= blocks[b].0,
    decreases b - c,
{
    if c + 1 < b {
        lemma_partition_ordered(s, blocks, c + 1, b);
    }
}

/// Whether `inst` writes a symbol that no instruction of `s` reads.
pub open spec fn is_dead(s: Seq<Instruction>, inst: Instruction) -> bool {
    inst.spec_destination() is Some && !read_in(s, inst.spec_destination().unwrap()@)
}

/// `s` with each dead instruction replaced by `Nop`.
pub open spec fn mark_dead(s: Seq<Instruction>) -> Seq<Instruction> {
    Seq::new(s.len(), |j: int| if is_dead(s, s[j]) { Instruction::Nop } else { s[j] })
}

/// One round of trivial dead-code elimination: drop every instruction
/// whose destination is never read, and every `Nop`.
pub open spec fn dce_step(s: Seq<Instruction>) -> Seq<Instruction> {
    strip_nops(mark_dead(s))
}

/// Dead-code elimination iterated until a round removes nothing.
pub open spec fn dce(s: Seq<Instruction>) -> Seq<Instruction>
    decreases s.len(),
{
    let t = dce_step(s);
    if t.len() < s.len() {
        dce(t)
    } else {
        t
    }
}

/// Whether every symbol read in `s` is written somewhere in `s`.
pub open spec fn well_formed(s: Seq<Instruction>) -> bool {
    forall|k| read_in(s, k) ==> defined_in(s, k)
}

/// Stripping `Nop`s never lengthens a sequence, and leaves one that keeps
/// its length unchanged.
pub proof fn lemma_strip_nops_len(x: Seq<Instruction>)
    ensures
        strip_nops(x).len() <= x.len(),
        strip_nops(x).len() == x.len() ==> strip_nops(x) == x,
    decreases x.len(),
{
    if x.len() > 0 {
        lemma_strip_nops_len(x.drop_first());
        if !(x[0] is Nop) && strip_nops(x).len() == x.len() {
            assert(x =~= seq![x[0]] + x.drop_first());
        }
    }
}

/// An instruction survives stripping exactly when it was there and is no `Nop`.
pub proof fn lemma_strip_nops_contains(x: Seq<Instruction>, e: Instruction)
    ensures
        strip_nops(x).contains(e) <==> (x.contains(e) && !(e is Nop)),
    decreases x.len(),
{
    if x.len() > 0 {
        lemma_strip_nops_contains(x.drop_first(), e);
        let r = strip_nops(x.drop_first());
        if x.contains(e) && !(e is Nop) {
            let j = choose|j: int| 0 <= j < x.len() && x[j] == e;
            if j > 0 {
                assert(x.drop_first()[j - 1] == e);
            }
        }
        if !(x[0] is Nop) {
            assert((seq![x[0]] + r)[0] == x[0]);
            if r.contains(e) {
                let j = choose|j: int| 0 <= j < r.len() && r[j] == e;
                assert((seq![x[0]] + r)[j + 1] == e);
            }
            if (seq![x[0]] + r).contains(e) {
                let j = choose|j: int| 0 <= j < r.len() + 1 && (seq![x[0]] + r)[j] == e;
                if j > 0 {
                    assert(r[j - 1] == e);
                }
            }
        }
        if x.drop_first().contains(e) {
            let j = choose|j: int| 0 <= j < x.len() - 1 && x.drop_first()[j] == e;
            assert(x[j + 1] == e);
        }
    }
}

/// A round that removes nothing leaves the sequence as it was.
pub proof fn lemma_dce_step_same_len(s: Seq<Instruction>)
    requires
        dce_step(s).len() >= s.len(),
    ensures
        dce_step(s) == s,
{
    let m = mark_dead(s);
    lemma_strip_nops_len(m);
    assert forall|j: int| 0 <= j < s.len() implies m[j] == s[j] by {
        if m[j] is Nop {
            lemma_strip_nops_contains(m, m[j]);
            assert(m.contains(m[j]));
            assert(strip_nops(m) == m);
        }
    }
    assert(m =~= s);
}

/// What dead-code elimination leaves is a fixpoint of one round.
pub proof fn lemma_dce_is_fixpoint(s: Seq<Instruction>)
    ensures
        dce_step(dce(s)) == dce(s),
    decreases s.len(),
{
    let t = dce_step(s);
    if t.len() < s.len() {
        lemma_dce_is_fixpoint(t);
    } else {
        lemma_dce_step_same_len(s);
    }
}

/// Dead-code elimination is idempotent: running it on its own result
/// changes nothing.
pub proof fn lemma_dce_idempotent(s: Seq<Instruction>)
    ensures
        dce(dce(s)) == dce(s),
{
    lemma_dce_is_fixpoint(s);
    lemma_strip_nops_len(mark_dead(dce(s)));
}

/// Dead-code elimination only removes: every instruction of the result is
/// one of `s`, and every instruction of `s` that writes nothing and is no
/// `Nop` (a return, jump, branch, label or call) stays.
pub proof fn lemma_dce_only_removes(s: Seq<Instruction>)
    ensures
        forall|e: Instruction| #[trigger] dce(s).contains(e) ==> s.contains(e),
        forall|e: Instruction|
            s.contains(e) && !(e is Nop) && e.spec_destination() is None ==> #[trigger] dce(s).contains(e),
    decreases s.len(),
{
    let m = mark_dead(s);
    let t = dce_step(s);
    assert forall|e: Instruction| t.contains(e) implies s.contains(e) by {
        lemma_strip_nops_contains(m, e);
        let i = choose|i: int| 0 <= i < m.len() && m[i] == e;
        assert(s[i] == e);
    }
    assert forall|e: Instruction| s.contains(e) && !(e is Nop) && e.spec_destination() is None implies t.contains(e) by {
        let i = choose|i: int| 0 <= i < s.len() && s[i] == e;
        assert(m[i] == e);
        lemma_strip_nops_contains(m, e);
    }
    if t.len() < s.len() {
        lemma_dce_only_removes(t);
        assert(dce(s) == dce(t));
        assert forall|e: Instruction| #[trigger] dce(s).contains(e) implies s.contains(e) by {
            assert(t.contains(e));
        }
        assert forall|e: Instruction|
            s.contains(e) && !(e is Nop) && e.spec_destination() is None implies #[trigger] dce(s).contains(e) by {
            assert(t.contains(e));
        }
    } else {
        assert(dce(s) == t);
    }
}

/// Dead-code elimination keeps every definition of a symbol that its
/// result reads; with the control instructions all kept, a definition that
/// reached a use still reaches it.
pub proof fn lemma_dce_keeps_read_definitions(s: Seq<Instruction>)
    ensures
        forall|e: Instruction|
            s.contains(e) && e.spec_destination() is Some && read_in(dce(s), e.spec_destination().unwrap()@)
                ==> #[trigger] dce(s).contains(e),
    decreases s.len(),
{
    let m = mark_dead(s);
    let t = dce_step(s);
    lemma_dce_only_removes(s);
    assert forall|e: Instruction|
        s.contains(e) && e.spec_destination() is Some && read_in(dce(s), e.spec_destination().unwrap()@)
            implies #[trigger] dce(s).contains(e) by {
        let k = e.spec_destination().unwrap()@;
        let j = choose|j: int| 0 <= j < dce(s).len() && reads(#[trigger] dce(s)[j], k);
        assert(dce(s).contains(dce(s)[j]));
        let x = choose|x: int| 0 <= x < s.len() && s[x] == dce(s)[j];
        assert(read_in(s, k));
        let i = choose|i: int| 0 <= i < s.len() && s[i] == e;
        assert(m[i] == e);
        assert(m.contains(e));
        lemma_strip_nops_contains(m, e);
        if t.len() < s.len() {
            lemma_dce_keeps_read_definitions(t);
            assert(dce(s) == dce(t));
        } else {
            assert(dce(s) == t);
        }
    }
}

/// One round keeps a sequence well formed.
pub proof fn lemma_dce_step_well_formed(s: Seq<Instruction>)
    requires
        well_formed(s),
    ensures
        well_formed(dce_step(s)),
{
    let m = mark_dead(s);
    let t = dce_step(s);
    assert forall|k| read_in(t, k) implies defined_in(t, k) by {
        let j = choose|j: int| 0 <= j < t.len() && reads(#[trigger] t[j], k);
        assert(t.contains(t[j]));
        lemma_strip_nops_contains(m, t[j]);
        let i = choose|i: int| 0 <= i < m.len() && m[i] == t[j];
        assert(s[i] == t[j]);
        assert(read_in(s, k));
        let d = choose|d: int|
            0 <= d < s.len() && (#[trigger] s[d]).spec_destination() is Some
                && s[d].spec_destination().unwrap()@ == k;
        assert(m[d] == s[d]);
        assert(m.contains(s[d]));
        lemma_strip_nops_contains(m, s[d]);
        let e = choose|e: int| 0 <= e < t.len() && t[e] == s[d];
        assert(t[e].spec_destination() is Some && t[e].spec_destination().unwrap()@ == k);
    }
}

/// Dead-code elimination leaves no dangling read: in a function where
/// every symbol read is written somewhere, every symbol read in the result
/// is still written somewhere in the result.
pub proof fn lemma_dce_sound(s: Seq<Instruction>)
    requires
        well_formed(s),
    ensures
        well_formed(dce(s)),
    decreases s.len(),
{
    lemma_dce_step_well_formed(s);
    let t = dce_step(s);
    if t.len() < s.len() {
        lemma_dce_sound(t);
    }
}

/// Trivial global dead-code elimination.
pub struct DCE {}

impl DCE {
    /// One round of trivial global dead-code elimination: every
    /// instruction whose destination no instruction reads becomes `Nop`,
    /// then every `Nop` is removed. Returns whether the body shrank.
    pub fn tdce(function: &mut Function) -> (r: bool)
        ensures
            final(function)@ == dce_step(old(function)@),
            r == (final(function)@.len() != old(function)@.len()),
            final(function).spec_name() == old(function).spec_name(),
            final(function).spec_return_type() == old(function).spec_return_type(),
    {
        let candidates = function.len();
        let ghost s = function@;
        let mut dead: Vec<bool> = Vec::new();
        let mut j: usize = 0;
        while j < candidates
            invariant
                candidates == s.len(),
                function@ == s,
                j <= candidates,
                dead@.len() == j,
                forall|m: int| 0 <= m < j ==> dead@[m] == is_dead(s, #[trigger] s[m]),
            decreases candidates - j,
        {
            let body = function.instructions();
            let d = match body[j].destination() {
                Some(dst) => !is_read_in(body, dst),
                None => false,
            };
            dead.push(d);
            j = j + 1;
        }
        let mut j: usize = 0;
        while j < candidates
            invariant
                candidates == s.len(),
                function@.len() == s.len(),
                j <= candidates,
                dead@.len() == candidates,
                forall|m: int| 0 <= m < candidates ==> dead@[m] == is_dead(s, #[trigger] s[m]),
                forall|m: int| 0 <= m < j ==> function@[m] == mark_dead(s)[m],
                forall|m: int| j <= m < candidates ==> function@[m] == s[m],
                function.spec_name() == old(function).spec_name(),
                function.spec_return_type() == old(function).spec_return_type(),
            decreases candidates - j,
        {
            if dead[j] {
                function.replace(j, Instruction::Nop);
            }
            j = j + 1;
        }
        assert(function@ =~= mark_dead(s));
        function.remove_dead_instructions();
        proof {
            lemma_strip_nops_len(mark_dead(s));
        }
        candidates != function.len()
    }

    /// Run rounds of dead-code elimination until one removes nothing.
    pub fn eliminate(function: &mut Function)
        ensures
            final(function)@ == dce(old(function)@),
            dce_step(final(function)@) == final(function)@,
            dce(final(function)@) == final(function)@,
            well_formed(old(function)@) ==> well_formed(final(function)@),
            forall|e: Instruction|
                old(function)@.contains(e) && e.spec_destination() is Some && read_in(
                    final(function)@,
                    e.spec_destination().unwrap()@,
                ) ==> #[trigger] final(function)@.contains(e),
            forall|e: Instruction| #[trigger] final(function)@.contains(e) ==> old(function)@.contains(e),
            forall|e: Instruction|
                old(function)@.contains(e) && !(e is Nop) && e.spec_destination() is None
                    ==> #[trigger] final(function)@.contains(e),
            final(function).spec_name() == old(function).spec_name(),
            final(function).spec_return_type() == old(function).spec_return_type(),
    {
        loop
            invariant_except_break
                dce(function@) == dce(old(function)@),
            invariant
                function.spec_name() == old(function).spec_name(),
                function.spec_return_type() == old(function).spec_return_type(),
            ensures
                function@ == dce(old(function)@),
            decreases function@.len(),
        {
            let ghost before = function@;
            proof {
                lemma_strip_nops_len(mark_dead(before));
            }
            if !Self::tdce(function) {
                assert(function@ == dce(before));
                break;
            }
        }
        proof {
            lemma_dce_is_fixpoint(old(function)@);
            lemma_dce_only_removes(old(function)@);
            lemma_dce_idempotent(old(function)@);
            lemma_dce_keeps_read_definitions(old(function)@);
            if well_formed(old(function)@) {
                lemma_dce_sound(old(function)@);
            }
        }
    }
}

impl Transform for DCE {
    open spec fn rewrites(&self, before: Function, after: Function) -> bool {
        &&& after@ == dce(before@)
        &&& dce_step(after@) == after@
        &&& dce(after@) == after@
        &&& well_formed(before@) ==> well_formed(after@)
        &&& forall|e: Instruction|
            before@.contains(e) && e.spec_destination() is Some && read_in(after@, e.spec_destination().unwrap()@)
                ==> #[trigger] after@.contains(e)
        &&& forall|e: Instruction| #[trigger] after@.contains(e) ==> before@.contains(e)
        &&& forall|e: Instruction|
            before@.contains(e) && !(e is Nop) && e.spec_destination() is None
                ==> #[trigger] after@.contains(e)
        &&& after.spec_name() == before.spec_name()
        &&& after.spec_return_type() == before.spec_return_type()
    }

    fn run(&self, function: &mut Function) {
        DCE::eliminate(function)
    }
}

} // verus!
