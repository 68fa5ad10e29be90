//! A small intermediate language in static single assignment form: functions
//! made of basic blocks, and a listing of them as text.

use crate::text::{decimal, format_decimal, format_hex, prefixed_hex};
use vstd::prelude::*;
use vstd::string::StringExecFns;

verus! {

/// A function id.  Function ids are unique in a program.
#[derive(Debug, Clone, Copy, PartialEq, Eq, PartialOrd, Ord)]
pub struct FunctionId(pub u32);

/// A block id.  Block ids are unique in a function.
#[derive(Debug, Clone, Copy, PartialEq, Eq, PartialOrd, Ord)]
pub struct BlockId(pub u32);

/// A name.  Names are unique in a function.
#[derive(Debug, Clone, Copy, PartialEq, Eq, PartialOrd, Ord)]
pub struct Name(pub u32);

/// The binary operations.
#[derive(Debug, Clone, Copy, PartialEq, Eq)]
pub enum BinOp {
    Add,
    Sub,
    LessThan,
    Eq,
}

/// A name or a number.
#[derive(Debug, Clone, Copy, PartialEq, Eq)]
pub enum NameOrVal {
    Name(Name),
    Val(u32),
}

/// An instruction.
#[derive(Debug, Clone, PartialEq, Eq)]
#[allow(inconsistent_fields)]
pub enum Instr {
    /// The value that belongs to the block that control came from: one
    /// assignment for a block, listed by ascending block id.
    Phi { assignments: Vec<(BlockId, NameOrVal)> },
    /// An unconditional jump.
    Branch { dest: BlockId },
    /// A jump to `true_dest` if `val` holds and to `false_dest` otherwise.
    Cond { val: NameOrVal, true_dest: BlockId, false_dest: BlockId },
    /// A call of `function` with `args`.
    Call { function: FunctionId, args: Vec<NameOrVal> },
    /// The return from the function, with its results.
    Return { vals: Vec<NameOrVal> },
    /// A number.
    Literal { val: u32 },
    /// A binary operation.
    BinOp { a: NameOrVal, op: BinOp, b: NameOrVal },
    /// The word at address `addr`.
    ReadMem { addr: NameOrVal },
    /// Stores `val` at address `addr`.
    WriteMem { addr: NameOrVal, val: NameOrVal },
}

/// A basic block: instructions, each with the name of its result if it has
/// one.
#[derive(Debug, Clone, PartialEq, Eq)]
pub struct Block {
    pub instructions: Vec<(Option<Name>, Instr)>,
}

/// A function: its blocks by ascending block id, the id of the block where it
/// starts, and the number of its arguments, which are the names `%1` up to
/// `%nargs`.
#[derive(Debug, PartialEq, Eq)]
pub struct Function {
    pub entry: BlockId,
    pub nargs: u32,
    pub blocks: Vec<(BlockId, Block)>,
}

/// The ids in `ids` ascend strictly: none occurs twice.
pub open spec fn ascending(ids: Seq<BlockId>) -> bool {
    forall|i: int, j: int| 0 <= i < j < ids.len() ==> (#[trigger] ids[i]).0 < (#[trigger] ids[j]).0
}

/// The block ids of the assignments of a phi instruction, in their order.
pub open spec fn assignment_ids(assignments: Seq<(BlockId, NameOrVal)>) -> Seq<BlockId> {
    Seq::new(assignments.len(), |i: int| assignments[i].0)
}

/// The ids of the blocks of a function, in their order.
pub open spec fn block_ids(blocks: Seq<(BlockId, Block)>) -> Seq<BlockId> {
    Seq::new(blocks.len(), |i: int| blocks[i].0)
}

impl Instr {
    /// A phi instruction lists its assignments once for each block, by
    /// ascending block id.  Every other instruction is well formed.
    pub open spec fn wf(self) -> bool {
        self matches Instr::Phi { assignments } ==> ascending(assignment_ids(assignments@))
    }

    /// Checks that the assignments of a phi instruction are listed by
    /// ascending block id.
    pub fn is_wf(&self) -> (ok: bool)
        ensures
            ok == self.wf(),
    {
        match self {
            Instr::Phi { assignments } => {
                let ghost ids = assignment_ids(assignments@);
                let n = assignments.len();
                let mut k: usize = 1;
                while k < n
                    invariant
                        1 <= k,
                        n == assignments@.len(),
                        *self == (Instr::Phi { assignments: *assignments }),
                        ids == assignment_ids(assignments@),
                        forall|i: int| 0 < i < k && i < n ==> (#[trigger] ids[i - 1]).0 < ids[i].0,
                    decreases n - k,
                {
                    proof {
                        assert(ids[k - 1] == assignments@[k - 1].0);
                        assert(ids[k as int] == assignments@[k as int].0);
                    }
                    if assignments[k - 1].0.0 >= assignments[k].0.0 {
                        proof {
                            assert(ids[k - 1].0 >= ids[k as int].0);
                            assert(!ascending(ids));
                        }
                        return false;
                    }
                    k = k + 1;
                }
                proof {
                    lemma_ascending(ids);
                }
                true
            },
            _ => true,
        }
    }
}

impl Block {
    /// Every instruction of the block is well formed.
    pub open spec fn wf(self) -> bool {
        forall|i: int|
            0 <= i < self.instructions@.len() ==> (#[trigger] self.instructions@[i]).1.wf()
    }

    /// Checks that every instruction of the block is well formed.
    pub fn is_wf(&self) -> (ok: bool)
        ensures
            ok == self.wf(),
    {
        let n = self.instructions.len();
        let mut k: usize = 0;
        while k < n
            invariant
                k <= n,
                n == self.instructions@.len(),
                forall|i: int| 0 <= i < k ==> (#[trigger] self.instructions@[i]).1.wf(),
            decreases n - k,
        {
            if !self.instructions[k].1.is_wf() {
                return false;
            }
            k = k + 1;
        }
        true
    }
}

impl Function {
    /// The blocks are listed once each, by ascending id, the entry block is
    /// one of them, and every block is well formed.
    pub open spec fn wf(self) -> bool {
        &&& ascending(block_ids(self.blocks@))
        &&& exists|i: int| 0 <= i < self.blocks@.len() && self.blocks@[i].0 == self.entry
        &&& forall|i: int| 0 <= i < self.blocks@.len() ==> (#[trigger] self.blocks@[i]).1.wf()
    }

    /// Checks that the blocks are listed by ascending id, that the entry
    /// block is among them, and that every phi instruction lists its
    /// assignments by ascending block id.
    pub fn is_wf(&self) -> (ok: bool)
        ensures
            ok == self.wf(),
    {
        let ghost ids = block_ids(self.blocks@);
        let n = self.blocks.len();
        let mut found = false;
        let mut k: usize = 0;
        while k < n
            invariant
                k <= n,
                n == self.blocks@.len(),
                ids == block_ids(self.blocks@),
                forall|i: int| 0 < i < k ==> (#[trigger] ids[i - 1]).0 < ids[i].0,
                forall|i: int| 0 <= i < k ==> (#[trigger] self.blocks@[i]).1.wf(),
                found <==> exists|i: int| 0 <= i < k && self.blocks@[i].0 == self.entry,
            decreases n - k,
        {
            if k > 0 && self.blocks[k - 1].0.0 >= self.blocks[k].0.0 {
                proof {
                    assert(ids[k - 1] == self.blocks@[k - 1].0);
                    assert(ids[k as int] == self.blocks@[k as int].0);
                }
                return false;
            }
            if !self.blocks[k].1.is_wf() {
                return false;
            }
            if self.blocks[k].0.0 == self.entry.0 {
                found = true;
            }
            proof {
                assert(ids[k as int] == self.blocks@[k as int].0);
            }
            k = k + 1;
        }
        proof {
            lemma_ascending(ids);
        }
        found
    }
}

/// Ids of which each is above the one before ascend strictly.
proof fn lemma_ascending(ids: Seq<BlockId>)
    requires
        forall|i: int| 0 < i < ids.len() ==> (#[trigger] ids[i - 1]).0 < ids[i].0,
    ensures
        ascending(ids),
{
    assert forall|i: int, j: int| 0 <= i < j < ids.len() implies (#[trigger] ids[i]).0 < (
    #[trigger] ids[j]).0 by {
        lemma_ascending_step(ids, i, j);
    }
}

/// One pair of `lemma_ascending`.
proof fn lemma_ascending_step(ids: Seq<BlockId>, i: int, j: int)
    requires
        forall|k: int| 0 < k < ids.len() ==> (#[trigger] ids[k - 1]).0 < ids[k].0,
        0 <= i < j < ids.len(),
    ensures
        ids[i].0 < ids[j].0,
    decreases j - i,
{
    assert(ids[j - 1].0 < ids[j].0);
    if i < j - 1 {
        lemma_ascending_step(ids, i, j - 1);
    }
}

/// Hands out block ids, starting at zero.
#[derive(Debug)]
pub struct BlockGen {
    current: u32,
}

impl BlockGen {
    /// The id that `next` will hand out.
    pub closed spec fn upcoming(&self) -> u32 {
        self.current
    }

    /// A generator whose first id is `b0`.
    pub fn new() -> (generator: Self)
        ensures
            generator.upcoming() == 0,
    {
        BlockGen { current: 0 }
    }

    /// The next free block id.
    pub fn next(&mut self) -> (id: BlockId)
        requires
            old(self).upcoming() < u32::MAX,
        ensures
            id == BlockId(old(self).upcoming()),
            final(self).upcoming() == old(self).upcoming() + 1,
    {
        let id = BlockId(self.current);
        self.current = self.current + 1;
        id
    }
}

/// Hands out names, starting at `%1`.
#[derive(Debug)]
pub struct NameGen {
    current: u32,
}

impl NameGen {
    /// The name that `next` will hand out.
    pub closed spec fn upcoming(&self) -> u32 {
        self.current
    }

    /// A generator whose first name is `%1`.
    pub fn new() -> (generator: Self)
        ensures
            generator.upcoming() == 1,
    {
        NameGen { current: 1 }
    }

    /// The next free name.
    pub fn next(&mut self) -> (name: Name)
        requires
            old(self).upcoming() < u32::MAX,
        ensures
            name == Name(old(self).upcoming()),
            final(self).upcoming() == old(self).upcoming() + 1,
    {
        let name = Name(self.current);
        self.current = self.current + 1;
        name
    }
}

/// A block id as text: `b` and the number.
pub open spec fn block_text(id: BlockId) -> Seq<char> {
    "b"@ + decimal(id.0 as nat)
}

/// A name as text: `%` and the number.
pub open spec fn name_text(name: Name) -> Seq<char> {
    "%"@ + decimal(name.0 as nat)
}

/// A binary operation as text.
pub open spec fn op_text(op: BinOp) -> Seq<char> {
    match op {
        BinOp::Add => "+"@,
        BinOp::Sub => "-"@,
        BinOp::LessThan => "<"@,
        BinOp::Eq => "=="@,
    }
}

/// A name or a number as text; the number in hexadecimal.
pub open spec fn value_text(value: NameOrVal) -> Seq<char> {
    match value {
        NameOrVal::Name(name) => name_text(name),
        NameOrVal::Val(val) => prefixed_hex(val as nat),
    }
}

/// Values as text, each followed by a comma and a space.
pub open spec fn values_text(values: Seq<NameOrVal>) -> Seq<char>
    decreases values.len(),
{
    if values.len() == 0 {
        Seq::<char>::empty()
    } else {
        values_text(values.drop_last()) + value_text(values.last()) + ", "@
    }
}

/// The arguments `%first` up to `%last` as text, each followed by a comma
/// and a space.
pub open spec fn arguments_text(first: nat, last: nat) -> Seq<char>
    decreases last,
{
    if last < first || last == 0 {
        Seq::<char>::empty()
    } else {
        arguments_text(first, (last - 1) as nat) + name_text(Name(last as u32)) + ", "@
    }
}

/// The assignments of a phi instruction as text: `[ block: value ] ` for
/// each.
pub open spec fn assignments_text(assignments: Seq<(BlockId, NameOrVal)>) -> Seq<char>
    decreases assignments.len(),
{
    if assignments.len() == 0 {
        Seq::<char>::empty()
    } else {
        assignments_text(assignments.drop_last()) + "[ "@ + block_text(assignments.last().0)
            + ": "@ + value_text(assignments.last().1) + " ] "@
    }
}

/// An instruction as text.
pub open spec fn instr_text(instr: Instr) -> Seq<char> {
    match instr {
        Instr::Phi { assignments } => "phi "@ + assignments_text(assignments@),
        Instr::Branch { dest } => "branch "@ + block_text(dest),
        Instr::Cond { val, true_dest, false_dest } => "cond "@ + value_text(val) + ", "@
            + block_text(true_dest) + ", "@ + block_text(false_dest),
        Instr::Call { function, args } => "call "@ + decimal(function.0 as nat) + "("@
            + values_text(args@) + ")"@,
        Instr::Return { vals } => "ret "@ + values_text(vals@),
        Instr::Literal { val } => prefixed_hex(val as nat),
        Instr::BinOp { a, op, b } => value_text(a) + " "@ + op_text(op) + " "@ + value_text(b),
        Instr::ReadMem { addr } => "read *"@ + value_text(addr),
        Instr::WriteMem { addr, val } => "write *"@ + value_text(addr) + " "@ + value_text(val),
    }
}

/// The line of an instruction: indented by four spaces, with the name of its
/// result and an equals sign in front if it has one.
pub open spec fn instr_line(result: Option<Name>, instr: Instr) -> Seq<char> {
    match result {
        Some(name) => "    "@ + name_text(name) + " = "@ + instr_text(instr),
        None => "    "@ + instr_text(instr),
    }
}

/// The lines of the instructions of a block.
pub open spec fn instr_lines(instructions: Seq<(Option<Name>, Instr)>) -> Seq<Seq<char>>
    decreases instructions.len(),
{
    if instructions.len() == 0 {
        Seq::<Seq<char>>::empty()
    } else {
        instr_lines(instructions.drop_last()).push(
            instr_line(instructions.last().0, instructions.last().1),
        )
    }
}

/// The lines of blocks: for each its id with a colon, then its instructions.
pub open spec fn block_lines(blocks: Seq<(BlockId, Block)>) -> Seq<Seq<char>>
    decreases blocks.len(),
{
    if blocks.len() == 0 {
        Seq::<Seq<char>>::empty()
    } else {
        block_lines(blocks.drop_last()).push(block_text(blocks.last().0) + ":"@) + instr_lines(
            blocks.last().1.instructions@,
        )
    }
}

/// The listing of a function: its name with its arguments in parentheses,
/// then its blocks.
pub open spec fn function_lines(name: Seq<char>, fun: Function) -> Seq<Seq<char>> {
    seq![name + "("@ + arguments_text(1, fun.nargs as nat) + ")"@] + block_lines(fun.blocks@)
}

/// What the strings of `lines` hold.
pub open spec fn texts(lines: Seq<String>) -> Seq<Seq<char>> {
    Seq::new(lines.len(), |i: int| lines[i]@)
}

/// Appends the text of a block id.
fn push_block(out: &mut String, id: BlockId)
    ensures
        final(out)@ == old(out)@ + block_text(id),
{
    let ghost before = out@;
    out.append("b");
    out.append(format_decimal(id.0).as_str());
    proof {
        assert(out@ =~= before + block_text(id));
    }
}

/// Appends the text of a name.
fn push_name(out: &mut String, name: Name)
    ensures
        final(out)@ == old(out)@ + name_text(name),
{
    let ghost before = out@;
    out.append("%");
    out.append(format_decimal(name.0).as_str());
    proof {
        assert(out@ =~= before + name_text(name));
    }
}

/// Appends the text of a name or a number.
fn push_value(out: &mut String, value: &NameOrVal)
    ensures
        final(out)@ == old(out)@ + value_text(*value),
{
    match value {
        NameOrVal::Name(name) => push_name(out, *name),
        NameOrVal::Val(val) => out.append(format_hex(*val).as_str()),
    }
}

/// Appends the text of values.
fn push_values(out: &mut String, values: &Vec<NameOrVal>)
    ensures
        final(out)@ == old(out)@ + values_text(values@),
{
    let ghost before = out@;
    let mut i: usize = 0;
    while i < values.len()
        invariant
            i <= values@.len(),
            out@ == before + values_text(values@.take(i as int)),
        decreases values@.len() - i,
    {
        let ghost start = out@;
        push_value(out, &values[i]);
        out.append(", ");
        i = i + 1;
        proof {
            assert(values@.take(i as int).drop_last() =~= values@.take(i - 1));
            assert(out@ =~= before + values_text(values@.take(i as int)));
        }
    }
    proof {
        assert(values@.take(values@.len() as int) =~= values@);
    }
}

/// Appends the text of the assignments of a phi instruction.
fn push_assignments(out: &mut String, assignments: &Vec<(BlockId, NameOrVal)>)
    ensures
        final(out)@ == old(out)@ + assignments_text(assignments@),
{
    let ghost before = out@;
    let mut i: usize = 0;
    while i < assignments.len()
        invariant
            i <= assignments@.len(),
            out@ == before + assignments_text(assignments@.take(i as int)),
        decreases assignments@.len() - i,
    {
        out.append("[ ");
        push_block(out, assignments[i].0);
        out.append(": ");
        push_value(out, &assignments[i].1);
        out.append(" ] ");
        i = i + 1;
        proof {
            assert(assignments@.take(i as int).drop_last() =~= assignments@.take(i - 1));
            assert(out@ =~= before + assignments_text(assignments@.take(i as int)));
        }
    }
    proof {
        assert(assignments@.take(assignments@.len() as int) =~= assignments@);
    }
}

/// Appends the text of an instruction.
fn push_instr(out: &mut String, instr: &Instr)
    ensures
        final(out)@ == old(out)@ + instr_text(*instr),
{
    let ghost before = out@;
    match instr {
        Instr::Phi { assignments } => {
            out.append("phi ");
            push_assignments(out, assignments);
        },
        Instr::Branch { dest } => {
            out.append("branch ");
            push_block(out, *dest);
        },
        Instr::Cond { val, true_dest, false_dest } => {
            out.append("cond ");
            push_value(out, val);
            out.append(", ");
            push_block(out, *true_dest);
            out.append(", ");
            push_block(out, *false_dest);
        },
        Instr::Call { function, args } => {
            out.append("call ");
            out.append(format_decimal(function.0).as_str());
            out.append("(");
            push_values(out, args);
            out.append(")");
        },
        Instr::Return { vals } => {
            out.append("ret ");
            push_values(out, vals);
        },
        Instr::Literal { val } => {
            out.append(format_hex(*val).as_str());
        },
        Instr::BinOp { a, op, b } => {
            push_value(out, a);
            out.append(" ");
            out.append(
                match op {
                    BinOp::Add => "+",
                    BinOp::Sub => "-",
                    BinOp::LessThan => "<",
                    BinOp::Eq => "==",
                },
            );
            out.append(" ");
            push_value(out, b);
        },
        Instr::ReadMem { addr } => {
            out.append("read *");
            push_value(out, addr);
        },
        Instr::WriteMem { addr, val } => {
            out.append("write *");
            push_value(out, addr);
            out.append(" ");
            push_value(out, val);
        },
    }
    proof {
        assert(out@ =~= before + instr_text(*instr));
    }
}

/// The first line of a listing.
fn header(name: &str, nargs: u32) -> (line: String)
    ensures
        line@ == name@ + "("@ + arguments_text(1, nargs as nat) + ")"@,
{
    let mut line = String::from_str(name);
    line.append("(");
    let ghost before = line@;
    let mut done: u32 = 0;
    while done < nargs
        invariant
            done <= nargs,
            line@ == before + arguments_text(1, done as nat),
        decreases nargs - done,
    {
        done = done + 1;
        push_name(&mut line, Name(done));
        line.append(", ");
        proof {
            assert(line@ =~= before + arguments_text(1, done as nat));
        }
    }
    line.append(")");
    line
}

/// The listing of `fun` under the name `name`, line by line.
pub fn format_function(name: &str, fun: &Function) -> (lines: Vec<String>)
    ensures
        texts(lines@) == function_lines(name@, *fun),
{
    let mut lines: Vec<String> = Vec::new();
    lines.push(header(name, fun.nargs));
    let ghost first = texts(lines@);
    proof {
        assert(first =~= seq![name@ + "("@ + arguments_text(1, fun.nargs as nat) + ")"@]);
    }
    let mut k: usize = 0;
    while k < fun.blocks.len()
        invariant
            k <= fun.blocks@.len(),
            texts(lines@) == first + block_lines(fun.blocks@.take(k as int)),
        decreases fun.blocks@.len() - k,
    {
        let ghost done = texts(lines@);
        let block = &fun.blocks[k].1;
        let mut label = String::new();
        push_block(&mut label, fun.blocks[k].0);
        label.append(":");
        lines.push(label);
        let ghost labelled = texts(lines@);
        proof {
            assert(labelled =~= done.push(block_text(fun.blocks@[k as int].0) + ":"@));
        }
        let mut i: usize = 0;
        while i < block.instructions.len()
            invariant
                i <= block.instructions@.len(),
                texts(lines@) == labelled + instr_lines(block.instructions@.take(i as int)),
            decreases block.instructions@.len() - i,
        {
            let ghost so_far = texts(lines@);
            let mut line = String::from_str("    ");
            match &block.instructions[i].0 {
                Some(name) => {
                    push_name(&mut line, *name);
                    line.append(" = ");
                },
                None => {},
            }
            push_instr(&mut line, &block.instructions[i].1);
            lines.push(line);
            i = i + 1;
            proof {
                let taken = block.instructions@.take(i as int);
                assert(taken.drop_last() =~= block.instructions@.take(i - 1));
                assert(texts(lines@) =~= so_far.push(instr_line(taken.last().0, taken.last().1)));
                assert(texts(lines@) =~= labelled + instr_lines(taken));
            }
        }
        k = k + 1;
        proof {
            assert(block.instructions@.take(block.instructions@.len() as int)
                =~= block.instructions@);
            let taken = fun.blocks@.take(k as int);
            assert(taken.drop_last() =~= fun.blocks@.take(k - 1));
            assert(texts(lines@) =~= first + block_lines(taken));
        }
    }
    proof {
        assert(fun.blocks@.take(fun.blocks@.len() as int) =~= fun.blocks@);
    }
    lines
}

} // verus!
