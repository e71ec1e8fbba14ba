//! The static disassembler: reachability-driven code discovery, block
//! coalescing, label synthesis, and the mixed code/data listing.
//!
//! Pass one walks the program from address 0 (and any extra entry points),
//! following literal jump targets and closing blocks at `Halt`, `Ret`,
//! `Jmp` and undecodable words.  Pass two sorts and merges the blocks,
//! sorts the resolved jumps into labels, and lays the program out as
//! instruction lines, label lines and eight-word data rows so that every
//! word of the input appears in exactly one line.

use vstd::multiset::Multiset;
use vstd::prelude::*;

use crate::instruction::{spec_decode, spec_operand_count, spec_parse_value, Operation, ParsedValue};

verus! {

/// A block of executed code: the closed interval of addresses
/// `[start, end]` that the discovery walk covered.
#[derive(Debug, Clone, Copy, PartialEq, Eq, Structural)]
pub struct ExecBlock {
    /// Address of the first instruction in the block.
    pub start: u16,
    /// Address of the last word the walk covered in this block.
    pub end: u16,
}

impl ExecBlock {
    /// A block from `start` to `end` inclusive.
    pub fn new(start: u16, end: u16) -> (b: ExecBlock)
        ensures
            b.start == start,
            b.end == end,
    {
        ExecBlock { start, end }
    }

    /// Whether the address lies in the block (both bounds inclusive).
    pub fn contains(&self, addr: usize) -> (r: bool)
        ensures
            r == (self.start <= addr && addr <= self.end),
    {
        self.start as usize <= addr && self.end as usize >= addr
    }
}

/// A jump in execution, possibly without a known destination.
#[derive(Debug, Clone, Copy, PartialEq, Eq, Structural)]
pub struct Jump {
    /// Location of the instruction that causes the jump.
    pub from: u16,
    /// Location at the other side, if one is known.
    pub target: Option<u16>,
}

/// A jump whose destination is known: it yields a label.
#[derive(Debug, Clone, Copy, PartialEq, Eq, Structural)]
pub struct JumpLabel {
    pub from: u16,
    pub target: u16,
}

impl Jump {
    /// The label this jump produces, if its target is known.
    pub fn get_label(&self) -> (r: Option<JumpLabel>)
        ensures
            self.target matches Some(t) ==> r == Some(JumpLabel { from: self.from, target: t }),
            self.target is None ==> r is None,
    {
        if let Some(target) = self.target {
            Some(JumpLabel { from: self.from, target })
        } else {
            None
        }
    }
}

/// What can go wrong when a listing is written to disk.
#[derive(Debug, Clone, Copy, PartialEq, Eq, Structural)]
pub enum AnalysisError {
    FileAccessError,
    FileWriteError,
}

/// All block start addresses, as a set of integers.
pub open spec fn spec_block_starts(blocks: Seq<ExecBlock>) -> Set<int> {
    Set::new(|x: int| exists|j: int| 0 <= j < blocks.len() && blocks[j].start == x)
}

/// The candidate the walk re-enters after a closed block: the word right
/// after it, if that word decodes to a known opcode.
pub open spec fn spec_successor(program: Seq<u16>, end: int) -> Seq<u16> {
    if end + 1 < program.len() && !(spec_decode(program[end + 1]) is Error) {
        seq![(end + 1) as u16]
    } else {
        Seq::empty()
    }
}

/// The jump recorded for the instruction at `from` whose target operand
/// sits at `slot`, and the candidate enqueued when that operand is a
/// literal within the program.
pub open spec fn spec_literal_target(program: Seq<u16>, from: int, slot: int) -> (Jump, Seq<u16>) {
    if slot < program.len() && spec_parse_value(program[slot]) is Literal {
        let a = spec_parse_value(program[slot])->Literal_0;
        (Jump { from: from as u16, target: Some(a) }, seq![a])
    } else {
        (Jump { from: from as u16, target: None }, Seq::<u16>::empty())
    }
}

/// One linear walk from `pc`: the address the block closes at, the jumps
/// recorded on the way, and the candidates enqueued, in push order.
/// Halt, Ret, an undecodable word and Jmp close the block; Jt, Jf and
/// Call record their target and fall through; a walk that runs off the
/// end closes at the last word.
pub open spec fn spec_walk_from(program: Seq<u16>, pc: int) -> (int, Seq<Jump>, Seq<u16>)
    decreases (if 0 <= pc <= program.len() {
        program.len() - pc
    } else {
        0int
    }),
{
    let len = program.len() as int;
    if pc < 0 || pc >= len {
        (len - 1, Seq::<Jump>::empty(), Seq::<u16>::empty())
    } else {
        let op = spec_decode(program[pc]);
        match op {
            Operation::Halt | Operation::Ret | Operation::Error(_) => (
                pc,
                seq![Jump { from: pc as u16, target: None }],
                spec_successor(program, pc),
            ),
            Operation::Jmp => {
                let end = if pc + 1 >= len {
                    len - 1
                } else {
                    pc + 1
                };
                let tj = spec_literal_target(program, pc, pc + 1);
                (end, seq![tj.0], tj.1 + spec_successor(program, end))
            },
            Operation::Jt | Operation::Jf => {
                let tj = spec_literal_target(program, pc, pc + 2);
                let rest = spec_walk_from(program, pc + 3);
                (rest.0, seq![tj.0] + rest.1, tj.1 + rest.2)
            },
            Operation::Call => {
                let tj = spec_literal_target(program, pc, pc + 1);
                let rest = spec_walk_from(program, pc + 2);
                (rest.0, seq![tj.0] + rest.1, tj.1 + rest.2)
            },
            _ => spec_walk_from(program, pc + 1 + spec_operand_count(op)),
        }
    }
}

/// The work-list fixpoint of discovery: pop a candidate, skip it when it
/// already starts a block or lies outside the program, otherwise walk it
/// and append the walk's block, jumps and candidates.  `seen` carries the
/// walked starts (always the blocks' start set).
pub open spec fn spec_discover(
    program: Seq<u16>,
    pending: Seq<u16>,
    seen: Set<int>,
    blocks: Seq<ExecBlock>,
    jumps: Seq<Jump>,
) -> (Seq<ExecBlock>, Seq<Jump>)
    decreases 0x10001 - seen.len(), pending.len(),
        when seen.finite() && seen.subset_of(vstd::set_lib::set_int_range(0, 0x10000))
        via spec_discover_decreases
{
    if pending.len() == 0 {
        (blocks, jumps)
    } else {
        let c = pending.last();
        if seen.contains(c as int) || c as int >= program.len() {
            spec_discover(program, pending.drop_last(), seen, blocks, jumps)
        } else {
            let walk = spec_walk_from(program, c as int);
            spec_discover(
                program,
                pending.drop_last() + walk.2,
                seen.insert(c as int),
                blocks.push(ExecBlock { start: c, end: walk.0 as u16 }),
                jumps + walk.1,
            )
        }
    }
}

#[via_fn]
proof fn spec_discover_decreases(
    program: Seq<u16>,
    pending: Seq<u16>,
    seen: Set<int>,
    blocks: Seq<ExecBlock>,
    jumps: Seq<Jump>,
) {
    vstd::set_lib::lemma_int_range(0, 0x10000);
    vstd::set_lib::lemma_len_subset(seen, vstd::set_lib::set_int_range(0, 0x10000));
    if pending.len() > 0 {
        let c = pending.last();
        if !(seen.contains(c as int) || c as int >= program.len()) {
            assert(seen.insert(c as int).len() == seen.len() + 1);
        }
    }
}

/// Discovery (pass one): walk the program from address 0 and the given
/// extra entry points, recording executed blocks and jumps.  The result
/// is exactly the work-list fixpoint `spec_discover`; in addition, every
/// block lies within the program and no two blocks share a start.
pub fn discover_blocks(program: &Vec<u16>, additional_starts: &Vec<u16>) -> (r: (
    Vec<ExecBlock>,
    Vec<Jump>,
))
    requires
        program@.len() <= 0x8000,
    ensures
        r.0@ == spec_discover(
            program@,
            seq![0u16] + additional_starts@,
            Set::<int>::empty(),
            Seq::<ExecBlock>::empty(),
            Seq::<Jump>::empty(),
        ).0,
        r.1@ == spec_discover(
            program@,
            seq![0u16] + additional_starts@,
            Set::<int>::empty(),
            Seq::<ExecBlock>::empty(),
            Seq::<Jump>::empty(),
        ).1,
        forall|j: int| 0 <= j < r.0@.len() ==> {
            &&& #[trigger] r.0@[j].start <= r.0@[j].end
            &&& r.0@[j].end < program@.len()
        },
        forall|i: int, j: int| 0 <= i < j < r.0@.len() ==> r.0@[i].start != r.0@[j].start,
{
    let mut exec_blocks: Vec<ExecBlock> = Vec::new();
    let mut jump_info: Vec<Jump> = Vec::new();
    let mut jump_targets: Vec<u16> = Vec::new();
    jump_targets.push(0);
    let mut ai: usize = 0;
    while ai < additional_starts.len()
        invariant
            ai <= additional_starts@.len(),
            exec_blocks@.len() == 0,
            jump_info@.len() == 0,
            jump_targets@ =~= seq![0u16] + additional_starts@.take(ai as int),
        decreases additional_starts.len() - ai,
    {
        jump_targets.push(additional_starts[ai]);
        proof {
            assert(jump_targets@ =~= seq![0u16] + additional_starts@.take(ai + 1));
        }
        ai = ai + 1;
    }
    proof {
        assert(jump_targets@ =~= seq![0u16] + additional_starts@);
    }
    let ghost pending0 = jump_targets@;
    let ghost starts: Set<int> = Set::empty();
    let mut done = false;
    while !done
        invariant
            program@.len() <= 0x8000,
            starts == spec_block_starts(exec_blocks@),
            starts.finite(),
            starts.len() == exec_blocks@.len(),
            starts.subset_of(vstd::set_lib::set_int_range(0, 0x10000)),
            spec_discover(program@, pending0, Set::<int>::empty(), Seq::<ExecBlock>::empty(),
                Seq::<Jump>::empty()) == spec_discover(
                program@,
                jump_targets@,
                starts,
                exec_blocks@,
                jump_info@,
            ),
            done ==> jump_targets@.len() == 0,
            forall|j: int| 0 <= j < exec_blocks@.len() ==> {
                &&& #[trigger] exec_blocks@[j].start <= exec_blocks@[j].end
                &&& exec_blocks@[j].end < program@.len()
            },
            forall|i: int, j: int| 0 <= i < j < exec_blocks@.len() ==> exec_blocks@[i].start
                != exec_blocks@[j].start,
        decreases (if done {
            0int
        } else {
            1int
        }), 0x10000 - exec_blocks@.len(), jump_targets@.len(),
    {
        proof {
            vstd::set_lib::lemma_int_range(0, 0x10000);
            vstd::set_lib::lemma_len_subset(starts, vstd::set_lib::set_int_range(0, 0x10000));
        }
        let ghost pending_before = jump_targets@;
        let block_start = match jump_targets.pop() {
            Some(t) => t,
            None => {
                done = true;
                continue ;
            },
        };
        // A candidate that already begins a block, or lies outside the
        // program, is skipped: this is what stops re-entry loops.
        let mut seen = false;
        let mut bi: usize = 0;
        while bi < exec_blocks.len()
            invariant
                bi <= exec_blocks@.len(),
                seen == (exists|j: int|
                    0 <= j < bi && exec_blocks@[j].start == block_start),
            decreases exec_blocks@.len() - bi,
        {
            if exec_blocks[bi].start == block_start {
                seen = true;
            }
            bi = bi + 1;
        }
        proof {
            assert(seen == starts.contains(block_start as int));
        }
        if seen || block_start as usize >= program.len() {
            proof {
                assert(spec_discover(program@, pending_before, starts, exec_blocks@, jump_info@)
                    == spec_discover(program@, jump_targets@, starts, exec_blocks@, jump_info@));
            }
            continue ;
        }
        // Walk linearly from the candidate until the block closes.
        let mut program_counter = block_start as usize;
        let ghost blocks_before = exec_blocks@;
        let ghost jumps_before = jump_info@;
        let ghost targets0 = jump_targets@;
        let ghost walk_full = spec_walk_from(program@, block_start as int);
        let mut closed = false;
        while !closed
            invariant
                program@.len() <= 0x8000,
                block_start as usize <= program_counter,
                walk_full == spec_walk_from(program@, block_start as int),
                jumps_before.len() <= jump_info@.len(),
                targets0.len() <= jump_targets@.len(),
                jump_info@.take(jumps_before.len() as int) == jumps_before,
                jump_targets@.take(targets0.len() as int) == targets0,
                !closed ==> walk_full == (
                    spec_walk_from(program@, program_counter as int).0,
                    jump_info@.skip(jumps_before.len() as int) + spec_walk_from(
                        program@,
                        program_counter as int,
                    ).1,
                    jump_targets@.skip(targets0.len() as int) + spec_walk_from(
                        program@,
                        program_counter as int,
                    ).2,
                ),
                closed ==> jump_info@ == jumps_before + walk_full.1,
                closed ==> jump_targets@ == targets0 + walk_full.2,
                exec_blocks@ == if closed {
                    blocks_before.push(
                        ExecBlock { start: block_start, end: walk_full.0 as u16 },
                    )
                } else {
                    blocks_before
                },
                closed ==> block_start <= walk_full.0 < program@.len(),
                !closed ==> exec_blocks@ == blocks_before,
                block_start < program@.len(),
            decreases (if closed {
                0int
            } else {
                1int
            }), (if program_counter <= program@.len() {
                program@.len() - program_counter
            } else {
                0int
            }),
        {
            let ghost tail = spec_walk_from(program@, program_counter as int);
            if program_counter >= program.len() {
                // The walk ran off the end: close at the last word.
                exec_blocks.push(ExecBlock::new(block_start, (program.len() - 1) as u16));
                proof {
                    assert(tail == ((program@.len() - 1) as int, Seq::<Jump>::empty(),
                        Seq::<u16>::empty()));
                    assert(jump_info@ =~= jumps_before + walk_full.1);
                    assert(jump_targets@ =~= targets0 + walk_full.2);
                }
                closed = true;
                continue ;
            }
            let instruction = Operation::from(program[program_counter]);
            let operands = match instruction {
                Operation::Error(_) => 0u16,
                _ => instruction.operands(),
            };
            match instruction {
                Operation::Halt | Operation::Ret | Operation::Error(_) => {
                    let end = program_counter as u16 + operands;
                    let end = if end as usize >= program.len() {
                        (program.len() - 1) as u16
                    } else {
                        end
                    };
                    exec_blocks.push(ExecBlock::new(block_start, end));
                    jump_info.push(Jump { from: program_counter as u16, target: None });
                    // Speculatively re-enter right after the block if the
                    // next word decodes to a known opcode.
                    if (end as usize) + 1 < program.len() {
                        let next_value = Operation::from(program[end as usize + 1]);
                        if let Operation::Error(_) = next_value {
                        } else {
                            jump_targets.push(end + 1);
                        }
                    }
                    proof {
                        assert(end == program_counter as u16);
                        assert(tail == (program_counter as int, seq![
                            Jump { from: program_counter as u16, target: None },
                        ], spec_successor(program@, program_counter as int)));
                        assert(jump_info@ =~= jumps_before + walk_full.1);
                        assert(jump_targets@ =~= targets0 + walk_full.2);
                        assert(jump_info@.take(jumps_before.len() as int) =~= jumps_before);
                        assert(jump_targets@.take(targets0.len() as int) =~= targets0);
                    }
                    closed = true;
                },
                Operation::Jmp => {
                    let end = program_counter as u16 + operands;
                    let end = if end as usize >= program.len() {
                        (program.len() - 1) as u16
                    } else {
                        end
                    };
                    exec_blocks.push(ExecBlock::new(block_start, end));
                    if program_counter + 1 < program.len() {
                        let target = ParsedValue::from(program[program_counter + 1]);
                        if let ParsedValue::Literal(address) = target {
                            jump_targets.push(address);
                            jump_info.push(Jump {
                                from: program_counter as u16,
                                target: Some(address),
                            });
                        } else {
                            jump_info.push(Jump { from: program_counter as u16, target: None });
                        }
                    } else {
                        jump_info.push(Jump { from: program_counter as u16, target: None });
                    }
                    if (end as usize) + 1 < program.len() {
                        let next_value = Operation::from(program[end as usize + 1]);
                        if let Operation::Error(_) = next_value {
                        } else {
                            jump_targets.push(end + 1);
                        }
                    }
                    proof {
                        let tj = spec_literal_target(
                            program@,
                            program_counter as int,
                            program_counter + 1,
                        );
                        assert(tail == (end as int, seq![tj.0], tj.1 + spec_successor(
                            program@,
                            end as int,
                        )));
                        assert(jump_info@ =~= jumps_before + walk_full.1);
                        assert(jump_targets@ =~= targets0 + walk_full.2);
                        assert(jump_info@.take(jumps_before.len() as int) =~= jumps_before);
                        assert(jump_targets@.take(targets0.len() as int) =~= targets0);
                    }
                    closed = true;
                },
                Operation::Jt | Operation::Jf => {
                    // The second operand holds the target; fall through.
                    if program_counter + 2 < program.len() {
                        let target = ParsedValue::from(program[program_counter + 2]);
                        if let ParsedValue::Literal(address) = target {
                            jump_targets.push(address);
                            jump_info.push(Jump {
                                from: program_counter as u16,
                                target: Some(address),
                            });
                        } else {
                            jump_info.push(Jump { from: program_counter as u16, target: None });
                        }
                    } else {
                        jump_info.push(Jump { from: program_counter as u16, target: None });
                    }
                    proof {
                        let tj = spec_literal_target(
                            program@,
                            program_counter as int,
                            program_counter + 2,
                        );
                        let rest = spec_walk_from(program@, program_counter + 3);
                        assert(tail == (rest.0, seq![tj.0] + rest.1, tj.1 + rest.2));
                        assert(jump_info@.skip(jumps_before.len() as int) + rest.1
                            =~= walk_full.1);
                        assert(jump_targets@.skip(targets0.len() as int) + rest.2
                            =~= walk_full.2);
                        assert(jump_info@.take(jumps_before.len() as int) =~= jumps_before);
                        assert(jump_targets@.take(targets0.len() as int) =~= targets0);
                    }
                    program_counter = program_counter + 1 + operands as usize;
                },
                Operation::Call => {
                    if program_counter + 1 < program.len() {
                        let target = ParsedValue::from(program[program_counter + 1]);
                        if let ParsedValue::Literal(address) = target {
                            jump_targets.push(address);
                            jump_info.push(Jump {
                                from: program_counter as u16,
                                target: Some(address),
                            });
                        } else {
                            jump_info.push(Jump { from: program_counter as u16, target: None });
                        }
                    } else {
                        jump_info.push(Jump { from: program_counter as u16, target: None });
                    }
                    proof {
                        let tj = spec_literal_target(
                            program@,
                            program_counter as int,
                            program_counter + 1,
                        );
                        let rest = spec_walk_from(program@, program_counter + 2);
                        assert(tail == (rest.0, seq![tj.0] + rest.1, tj.1 + rest.2));
                        assert(jump_info@.skip(jumps_before.len() as int) + rest.1
                            =~= walk_full.1);
                        assert(jump_targets@.skip(targets0.len() as int) + rest.2
                            =~= walk_full.2);
                        assert(jump_info@.take(jumps_before.len() as int) =~= jumps_before);
                        assert(jump_targets@.take(targets0.len() as int) =~= targets0);
                    }
                    program_counter = program_counter + 1 + operands as usize;
                },
                _ => {
                    proof {
                        assert(tail == spec_walk_from(
                            program@,
                            program_counter + 1 + spec_operand_count(
                                spec_decode(program@[program_counter as int]),
                            ),
                        ));
                    }
                    program_counter = program_counter + 1 + operands as usize;
                },
            }
        }
        proof {
            let nb = exec_blocks@.last();
            assert(forall|j: int| 0 <= j < blocks_before.len() ==> blocks_before[j]
                == exec_blocks@[j]);
            assert(!starts.contains(nb.start as int)) by {
                if starts.contains(nb.start as int) {
                    assert(spec_block_starts(blocks_before).contains(nb.start as int));
                }
            }
            // One unfolding of the fixpoint swallows this walk.
            assert(pending_before.last() == block_start);
            assert(pending_before.drop_last() =~= targets0);
            assert(spec_discover(program@, pending_before, starts, blocks_before, jumps_before)
                == spec_discover(program@, jump_targets@, starts.insert(block_start as int),
                exec_blocks@, jump_info@));
            let starts2 = starts.insert(nb.start as int);
            assert(starts2.len() == starts.len() + 1);
            starts = starts2;
            assert(starts =~= spec_block_starts(exec_blocks@));
            assert(starts.subset_of(vstd::set_lib::set_int_range(0, 0x10000)));
            vstd::set_lib::lemma_int_range(0, 0x10000);
            vstd::set_lib::lemma_len_subset(starts, vstd::set_lib::set_int_range(0, 0x10000));
            assert(exec_blocks@.len() <= 0x10000);
        }
    }
    (exec_blocks, jump_info)
}

/// Whether some block covers the address (both bounds inclusive).
pub open spec fn spec_covered(blocks: Seq<ExecBlock>, addr: int) -> bool {
    exists|j: int| 0 <= j < blocks.len() && (#[trigger] blocks[j].start) <= addr <= blocks[j].end
}

/// Well-formed discovery output: every block within the program.
pub open spec fn spec_blocks_wf(blocks: Seq<ExecBlock>, len: int) -> bool {
    forall|j: int| 0 <= j < blocks.len() ==> {
        &&& #[trigger] blocks[j].start <= blocks[j].end
        &&& blocks[j].end < len
    }
}

/// Sequences with equal multisets cover the same addresses.
proof fn lemma_same_multiset_same_cover(a: Seq<ExecBlock>, b: Seq<ExecBlock>, addr: int)
    requires
        a.to_multiset() == b.to_multiset(),
    ensures
        spec_covered(a, addr) <==> spec_covered(b, addr),
{
    broadcast use vstd::seq_lib::group_to_multiset_ensures;
    broadcast use vstd::multiset::group_multiset_axioms;

    if spec_covered(a, addr) {
        let j = choose|j: int| 0 <= j < a.len() && (#[trigger] a[j].start) <= addr <= a[j].end;
        assert(a.to_multiset().contains(a[j]));
        assert(b.contains(a[j]));
        let k = choose|k: int| 0 <= k < b.len() && b[k] == a[j];
        assert(spec_covered(b, addr));
    }
    if spec_covered(b, addr) {
        let j = choose|j: int| 0 <= j < b.len() && (#[trigger] b[j].start) <= addr <= b[j].end;
        assert(b.to_multiset().contains(b[j]));
        assert(a.contains(b[j]));
        let k = choose|k: int| 0 <= k < a.len() && a[k] == b[j];
        assert(spec_covered(a, addr));
    }
}

/// Sort blocks ascending by start address (the block set is unchanged).
pub fn sort_blocks(blocks: Vec<ExecBlock>) -> (sorted: Vec<ExecBlock>)
    ensures
        sorted@.to_multiset() == blocks@.to_multiset(),
        forall|i: int, j: int| 0 <= i < j < sorted@.len() ==> sorted@[i].start
            <= sorted@[j].start,
        forall|addr: int| spec_covered(sorted@, addr) <==> spec_covered(blocks@, addr),
        forall|len: int| spec_blocks_wf(blocks@, len) ==> spec_blocks_wf(sorted@, len),
{
    broadcast use vstd::seq_lib::group_to_multiset_ensures;
    broadcast use vstd::multiset::group_multiset_axioms;

    let mut rest = blocks;
    let ghost orig = rest@;
    let mut sorted: Vec<ExecBlock> = Vec::new();
    while rest.len() > 0
        invariant
            sorted@.to_multiset().add(rest@.to_multiset()) == orig.to_multiset(),
            forall|i: int, j: int| 0 <= i < j < sorted@.len() ==> sorted@[i].start
                <= sorted@[j].start,
            forall|i: int, j: int| 0 <= i < sorted@.len() && 0 <= j < rest@.len()
                ==> sorted@[i].start <= rest@[j].start,
        decreases rest@.len(),
    {
        let mut mi: usize = 0;
        let mut k: usize = 1;
        while k < rest.len()
            invariant
                mi < rest@.len(),
                k <= rest@.len(),
                forall|j: int| 0 <= j < k ==> rest@[mi as int].start <= rest@[j].start,
            decreases rest@.len() - k,
        {
            if rest[k].start < rest[mi].start {
                mi = k;
            }
            k = k + 1;
        }
        let ghost rest_before = rest@;
        let ghost sorted_before = sorted@;
        let b = rest.remove(mi);
        sorted.push(b);
        proof {
            rest_before.to_multiset_ensures();
            sorted_before.to_multiset_ensures();
            assert(rest@ == rest_before.remove(mi as int));
            assert(rest@.to_multiset() =~= rest_before.to_multiset().remove(b));
            assert(sorted@ == sorted_before.push(b));
            assert(sorted@.to_multiset() =~= sorted_before.to_multiset().insert(b));
            assert(rest_before.to_multiset().contains(b)) by {
                assert(rest_before.contains(b));
            }
            assert forall|x: ExecBlock|
                sorted@.to_multiset().add(rest@.to_multiset()).count(x) == orig.to_multiset()
                    .count(x) by {
                assert(sorted_before.to_multiset().add(rest_before.to_multiset()).count(x)
                    == orig.to_multiset().count(x));
            }
            assert(sorted@.to_multiset().add(rest@.to_multiset()) =~= orig.to_multiset());
            assert forall|i: int, j: int|
                0 <= i < sorted@.len() && 0 <= j < rest@.len() implies sorted@[i].start
                <= rest@[j].start by {
                if j < mi {
                    assert(rest@[j] == rest_before[j]);
                } else {
                    assert(rest@[j] == rest_before[j + 1]);
                }
                if i == sorted@.len() - 1 {
                    assert(sorted@[i] == b);
                }
            }
        }
    }
    proof {
        assert(rest@.to_multiset() =~= Multiset::<ExecBlock>::empty());
        assert(sorted@.to_multiset() =~= orig.to_multiset());
        assert forall|addr: int| spec_covered(sorted@, addr) <==> spec_covered(orig, addr) by {
            lemma_same_multiset_same_cover(sorted@, orig, addr);
        }
        assert forall|len: int| spec_blocks_wf(orig, len) implies spec_blocks_wf(
            sorted@,
            len,
        ) by {
            assert forall|j: int| 0 <= j < sorted@.len() implies (#[trigger] sorted@[j].start)
                <= sorted@[j].end && sorted@[j].end < len by {
                assert(sorted@.to_multiset().contains(sorted@[j]));
                assert(orig.contains(sorted@[j]));
                let k = choose|k: int| 0 <= k < orig.len() && orig[k] == sorted@[j];
            }
        }
    }
    sorted
}

/// Coverage of one more block of the sorted input.
proof fn lemma_cover_take_succ(sorted: Seq<ExecBlock>, i: int, addr: int)
    requires
        0 <= i < sorted.len(),
    ensures
        spec_covered(sorted.take(i + 1), addr) <==> (spec_covered(sorted.take(i), addr) || (
        sorted[i].start <= addr <= sorted[i].end)),
{
    if spec_covered(sorted.take(i + 1), addr) {
        let j = choose|j: int|
            0 <= j < i + 1 && (#[trigger] sorted.take(i + 1)[j].start) <= addr <= sorted.take(
                i + 1,
            )[j].end;
        if j < i {
            assert(sorted.take(i)[j] == sorted.take(i + 1)[j]);
            assert(spec_covered(sorted.take(i), addr));
        }
    }
    if spec_covered(sorted.take(i), addr) {
        let j = choose|j: int|
            0 <= j < i && (#[trigger] sorted.take(i)[j].start) <= addr <= sorted.take(i)[j].end;
        assert(sorted.take(i + 1)[j] == sorted.take(i)[j]);
        assert(spec_covered(sorted.take(i + 1), addr));
    }
    if sorted[i].start <= addr <= sorted[i].end {
        assert(sorted.take(i + 1)[i] == sorted[i]);
        assert(spec_covered(sorted.take(i + 1), addr));
    }
}

/// Merge adjacent and overlapping blocks of a sorted sequence: the result
/// is ascending with a gap between consecutive blocks, and covers exactly
/// the same addresses.
pub fn coalesce_blocks(sorted: Vec<ExecBlock>) -> (merged: Vec<ExecBlock>)
    requires
        forall|i: int, j: int| 0 <= i < j < sorted@.len() ==> sorted@[i].start
            <= sorted@[j].start,
        forall|j: int| 0 <= j < sorted@.len() ==> #[trigger] sorted@[j].start <= sorted@[j].end,
    ensures
        forall|i: int, j: int| 0 <= i < j < merged@.len() ==> merged@[i].end < merged@[j].start,
        forall|j: int| 0 <= j < merged@.len() ==> #[trigger] merged@[j].start <= merged@[j].end,
        forall|addr: int| spec_covered(merged@, addr) <==> spec_covered(sorted@, addr),
        forall|len: int| spec_blocks_wf(sorted@, len) ==> spec_blocks_wf(merged@, len),
{
    let ghost slen: int = sorted@.len() as int;
    let mut merged: Vec<ExecBlock> = Vec::new();
    let mut i: usize = 0;
    while i < sorted.len()
        invariant
            i <= sorted@.len(),
            forall|a: int, c: int| 0 <= a < c < merged@.len() ==> merged@[a].end
                < merged@[c].start,
            forall|j: int| 0 <= j < merged@.len() ==> #[trigger] merged@[j].start
                <= merged@[j].end,
            forall|addr: int| spec_covered(merged@, addr) <==> spec_covered(
                sorted@.take(i as int),
                addr,
            ),
            forall|a: int, c: int| 0 <= a < c < sorted@.len() ==> sorted@[a].start
                <= sorted@[c].start,
            forall|j: int| 0 <= j < sorted@.len() ==> #[trigger] sorted@[j].start
                <= sorted@[j].end,
            merged@.len() > 0 && i < sorted@.len() ==> merged@.last().start
                <= sorted@[i as int].start,
            forall|len: int| spec_blocks_wf(sorted@, len) ==> spec_blocks_wf(merged@, len),
        decreases sorted@.len() - i,
    {
        let b = sorted[i];
        let ghost merged_before = merged@;
        if merged.len() == 0 {
            merged.push(b);
            proof {
                assert forall|addr: int| spec_covered(merged@, addr) <==> spec_covered(
                    sorted@.take(i + 1),
                    addr,
                ) by {
                    lemma_cover_take_succ(sorted@, i as int, addr);
                    if spec_covered(merged@, addr) {
                        let j = choose|j: int|
                            0 <= j < merged@.len() && (#[trigger] merged@[j].start) <= addr
                                <= merged@[j].end;
                        if j < merged_before.len() {
                            assert(spec_covered(merged_before, addr));
                        } else {
                            assert(merged@[j] == b);
                        }
                    }
                    if spec_covered(merged_before, addr) {
                        let j = choose|j: int|
                            0 <= j < merged_before.len() && (#[trigger] merged_before[j].start)
                                <= addr <= merged_before[j].end;
                        assert(merged@[j] == merged_before[j]);
                        assert(spec_covered(merged@, addr));
                    }
                    if b.start <= addr <= b.end {
                        assert(merged@.last() == b);
                        assert(spec_covered(merged@, addr));
                    }
                }
            }
        } else {
            let li = merged.len() - 1;
            let l = merged[li];
            if l.end < b.start {
                merged.push(b);
                proof {
                    assert forall|addr: int| spec_covered(merged@, addr) <==> spec_covered(
                        sorted@.take(i + 1),
                        addr,
                    ) by {
                        lemma_cover_take_succ(sorted@, i as int, addr);
                        if spec_covered(merged@, addr) {
                            let j = choose|j: int|
                                0 <= j < merged@.len() && (#[trigger] merged@[j].start) <= addr
                                    <= merged@[j].end;
                            if j < merged_before.len() {
                                assert(merged_before[j] == merged@[j]);
                                assert(spec_covered(merged_before, addr));
                            } else {
                                assert(merged@[j] == b);
                            }
                        }
                        if spec_covered(merged_before, addr) {
                            let j = choose|j: int|
                                0 <= j < merged_before.len() && (#[trigger] merged_before[j].start)
                                    <= addr <= merged_before[j].end;
                            assert(merged@[j] == merged_before[j]);
                            assert(spec_covered(merged@, addr));
                        }
                        if b.start <= addr <= b.end {
                            assert(merged@.last() == b);
                            assert(spec_covered(merged@, addr));
                        }
                    }
                }
            } else if l.end >= b.end {
                // The new block lies inside the last one: drop it.
                proof {
                    assert forall|addr: int| spec_covered(merged@, addr) <==> spec_covered(
                        sorted@.take(i + 1),
                        addr,
                    ) by {
                        lemma_cover_take_succ(sorted@, i as int, addr);
                        if b.start <= addr <= b.end {
                            assert(merged@[li as int].start <= addr <= merged@[li as int].end);
                            assert(spec_covered(merged@, addr));
                        }
                    }
                }
            } else {
                merged[li] = ExecBlock { start: l.start, end: b.end };
                proof {
                    assert forall|addr: int| spec_covered(merged@, addr) <==> spec_covered(
                        sorted@.take(i + 1),
                        addr,
                    ) by {
                        lemma_cover_take_succ(sorted@, i as int, addr);
                        if spec_covered(merged@, addr) {
                            let j = choose|j: int|
                                0 <= j < merged@.len() && (#[trigger] merged@[j].start) <= addr
                                    <= merged@[j].end;
                            if j < li {
                                assert(merged_before[j] == merged@[j]);
                                assert(spec_covered(merged_before, addr));
                            } else {
                                // Inside the widened block: left part was
                                // covered by `l`, right part by `b`.
                                if addr <= l.end {
                                    assert(merged_before[li as int] == l);
                                    assert(spec_covered(merged_before, addr));
                                } else {
                                    assert(b.start <= l.end < addr <= b.end);
                                }
                            }
                        }
                        if spec_covered(merged_before, addr) {
                            let j = choose|j: int|
                                0 <= j < merged_before.len() && (#[trigger] merged_before[j].start)
                                    <= addr <= merged_before[j].end;
                            if j < li {
                                assert(merged@[j] == merged_before[j]);
                            } else {
                                assert(merged_before[j] == l);
                                assert(merged@[li as int].start <= addr <= merged@[li as int].end);
                            }
                            assert(spec_covered(merged@, addr));
                        }
                        if b.start <= addr <= b.end {
                            assert(merged@[li as int].start <= addr <= merged@[li as int].end);
                            assert(spec_covered(merged@, addr));
                        }
                    }
                }
            }
        }
        i = i + 1;
    }
    proof {
        assert(sorted@.take(sorted@.len() as int) =~= sorted@);
    }
    merged
}

/// The labels of the jumps whose target is known, in discovery order.
pub open spec fn spec_labels(jumps: Seq<Jump>) -> Seq<JumpLabel>
    decreases jumps.len(),
{
    if jumps.len() == 0 {
        Seq::empty()
    } else {
        let rest = spec_labels(jumps.drop_last());
        match jumps.last().target {
            Some(t) => rest.push(JumpLabel { from: jumps.last().from, target: t }),
            None => rest,
        }
    }
}

/// Keep the jumps with a known target, as labels.
pub fn labels_from_jumps(jumps: &Vec<Jump>) -> (labels: Vec<JumpLabel>)
    ensures
        labels@ == spec_labels(jumps@),
{
    let mut labels: Vec<JumpLabel> = Vec::new();
    let mut i: usize = 0;
    while i < jumps.len()
        invariant
            i <= jumps@.len(),
            labels@ == spec_labels(jumps@.take(i as int)),
        decreases jumps@.len() - i,
    {
        if let Some(label) = jumps[i].get_label() {
            labels.push(label);
        }
        proof {
            assert(jumps@.take(i + 1).drop_last() =~= jumps@.take(i as int));
            assert(jumps@.take(i + 1).last() == jumps@[i as int]);
        }
        i = i + 1;
    }
    proof {
        assert(jumps@.take(jumps@.len() as int) =~= jumps@);
    }
    labels
}

/// One line of the listing: a label marker, one instruction with its
/// operands, or a data row of up to eight words.
#[derive(Debug, Clone, Copy, PartialEq, Eq, Structural)]
pub enum ListingItem {
    /// ":l<from>" emitted before the instruction at `at`.
    Label { from: u16, at: u16 },
    /// The instruction whose opcode word sits at `addr`; its operand
    /// words reach up to (excluding) `stop`.
    Instruction { addr: u16, stop: u16 },
    /// Raw words from `addr` up to (excluding) `stop`, at most eight.
    DataRow { addr: u16, stop: u16 },
}

/// The first program address an item covers.
pub open spec fn spec_item_start(item: ListingItem) -> int {
    match item {
        ListingItem::Label { at, .. } => at as int,
        ListingItem::Instruction { addr, .. } => addr as int,
        ListingItem::DataRow { addr, .. } => addr as int,
    }
}

/// One past the last program address an item covers (labels cover none).
pub open spec fn spec_item_stop(item: ListingItem) -> int {
    match item {
        ListingItem::Label { at, .. } => at as int,
        ListingItem::Instruction { stop, .. } => stop as int,
        ListingItem::DataRow { stop, .. } => stop as int,
    }
}

/// An item is well formed for a program of length `len`: it lies within
/// the program, an instruction consumes at least its opcode word, and a
/// data row holds at most eight words.
pub open spec fn spec_item_wf(item: ListingItem, len: int) -> bool {
    match item {
        ListingItem::Label { at, .. } => at <= len,
        ListingItem::Instruction { addr, stop } => addr < stop <= len,
        ListingItem::DataRow { addr, stop } => addr <= stop <= len && stop <= addr + 8,
    }
}

/// The items partition the address range `[from, to)`: each item starts
/// where the previous one stopped, and the last stops at `to` — so every
/// address of the range belongs to exactly one item, in order.
pub open spec fn spec_items_partition(items: Seq<ListingItem>, from: int, to: int) -> bool
    decreases items.len(),
{
    if items.len() == 0 {
        from == to
    } else {
        &&& spec_item_start(items.first()) == from
        &&& from <= spec_item_stop(items.first())
        &&& spec_items_partition(items.drop_first(), spec_item_stop(items.first()), to)
    }
}

/// Appending an item that starts at the old end extends a partition.
proof fn lemma_partition_push(items: Seq<ListingItem>, from: int, mid: int, item: ListingItem)
    requires
        spec_items_partition(items, from, mid),
        spec_item_start(item) == mid,
        mid <= spec_item_stop(item),
    ensures
        spec_items_partition(items.push(item), from, spec_item_stop(item)),
    decreases items.len(),
{
    if items.len() == 0 {
        assert(items.push(item).first() == item);
        assert(items.push(item).drop_first() =~= Seq::empty());
    } else {
        lemma_partition_push(items.drop_first(), spec_item_stop(items.first()), mid, item);
        assert(items.push(item).first() == items.first());
        assert(items.push(item).drop_first() =~= items.drop_first().push(item));
        assert(spec_items_partition(
            items.push(item).drop_first(),
            spec_item_stop(items.first()),
            spec_item_stop(item),
        ));
    }
    assert(spec_items_partition(items.push(item), from, spec_item_stop(item))) by {
        reveal_with_fuel(spec_items_partition, 2);
    }
}

/// The labels whose target is `addr`, in list order.
pub open spec fn spec_labels_at(labels: Seq<JumpLabel>, addr: int) -> Seq<JumpLabel>
    decreases labels.len(),
{
    if labels.len() == 0 {
        Seq::empty()
    } else {
        spec_labels_at(labels.drop_last(), addr) + if labels.last().target == addr {
            seq![labels.last()]
        } else {
            Seq::<JumpLabel>::empty()
        }
    }
}

/// Taking one more label extends the filtered run by at most that label.
proof fn lemma_labels_at_snoc(labels: Seq<JumpLabel>, li: int, addr: int)
    requires
        0 <= li < labels.len(),
    ensures
        spec_labels_at(labels.take(li + 1), addr) == spec_labels_at(labels.take(li), addr) + (
        if labels[li].target == addr {
            seq![labels[li]]
        } else {
            Seq::<JumpLabel>::empty()
        }),
{
    assert(labels.take(li + 1).drop_last() =~= labels.take(li));
    assert(labels.take(li + 1).last() == labels[li]);
}

/// The labels aimed at an instruction stand as a contiguous run right
/// before it, in label-list order.
pub open spec fn spec_label_run_before(
    items: Seq<ListingItem>,
    labels: Seq<JumpLabel>,
    k: int,
) -> bool {
    items[k] matches ListingItem::Instruction { addr, .. } ==> {
        let ls = spec_labels_at(labels, addr as int);
        &&& ls.len() <= k
        &&& forall|m: int| 0 <= m < ls.len() ==> items[k - ls.len() + m] == (ListingItem::Label {
            from: ls[m].from,
            at: addr,
        })
    }
}

/// Every instruction item has its labels placed right before it.
pub open spec fn spec_labels_placed(items: Seq<ListingItem>, labels: Seq<JumpLabel>) -> bool {
    forall|k: int| 0 <= k < items.len() ==> #[trigger] spec_label_run_before(items, labels, k)
}

/// Data rows hold only addresses no block covers.
pub open spec fn spec_rows_uncovered(items: Seq<ListingItem>, blocks: Seq<ExecBlock>) -> bool {
    forall|k: int| 0 <= k < items.len() ==> (#[trigger] items[k] matches ListingItem::DataRow {
        addr,
        stop,
    } ==> forall|a: int| addr <= a < stop ==> !spec_covered(blocks, a))
}

/// Every instruction item starts at a block-covered address.
pub open spec fn spec_instructions_covered(
    items: Seq<ListingItem>,
    blocks: Seq<ExecBlock>,
) -> bool {
    forall|k: int| 0 <= k < items.len() ==> (#[trigger] items[k] matches
        ListingItem::Instruction { addr, .. } ==> spec_covered(blocks, addr as int))
}

/// Pushing an item whose label run (if it is an instruction) already sits
/// at the tail keeps every label run in place.
proof fn lemma_placed_push(items: Seq<ListingItem>, labels: Seq<JumpLabel>, item: ListingItem)
    requires
        spec_labels_placed(items, labels),
        item matches ListingItem::Instruction { addr, .. } ==> {
            let ls = spec_labels_at(labels, addr as int);
            &&& ls.len() <= items.len()
            &&& forall|m: int| 0 <= m < ls.len() ==> items[items.len() - ls.len() + m] == (
            ListingItem::Label { from: ls[m].from, at: addr })
        },
    ensures
        spec_labels_placed(items.push(item), labels),
{
    let pushed = items.push(item);
    assert forall|k: int| 0 <= k < pushed.len() implies #[trigger] spec_label_run_before(
        pushed,
        labels,
        k,
    ) by {
        if k < items.len() {
            assert(pushed[k] == items[k]);
            assert(spec_label_run_before(items, labels, k));
            if pushed[k] is Instruction {
                let ls = spec_labels_at(labels, pushed[k]->Instruction_addr as int);
                assert forall|m: int| 0 <= m < ls.len() implies pushed[k - ls.len() + m] == (
                ListingItem::Label { from: ls[m].from, at: pushed[k]->Instruction_addr }) by {
                    assert(pushed[k - ls.len() + m] == items[k - ls.len() + m]);
                }
            }
        } else {
            if item is Instruction {
                let ls = spec_labels_at(labels, item->Instruction_addr as int);
                assert forall|m: int| 0 <= m < ls.len() implies pushed[k - ls.len() + m] == (
                ListingItem::Label { from: ls[m].from, at: item->Instruction_addr }) by {
                    assert(pushed[k - ls.len() + m] == items[items.len() - ls.len() + m]);
                }
            }
        }
    }
}

/// Pushing an item whose data words (if it is a row) are uncovered keeps
/// all rows uncovered.
proof fn lemma_rows_push(items: Seq<ListingItem>, blocks: Seq<ExecBlock>, item: ListingItem)
    requires
        spec_rows_uncovered(items, blocks),
        item matches ListingItem::DataRow { addr, stop } ==> forall|a: int| addr <= a < stop
            ==> !spec_covered(blocks, a),
    ensures
        spec_rows_uncovered(items.push(item), blocks),
{
    let pushed = items.push(item);
    assert forall|k: int| 0 <= k < pushed.len() implies (#[trigger] pushed[k] matches
        ListingItem::DataRow { addr, stop } ==> forall|a: int| addr <= a < stop
        ==> !spec_covered(blocks, a)) by {
        if k < items.len() {
            assert(pushed[k] == items[k]);
        }
    }
}

/// Pushing an item that starts covered (if it is an instruction) keeps
/// all instruction items covered.
proof fn lemma_instr_push(items: Seq<ListingItem>, blocks: Seq<ExecBlock>, item: ListingItem)
    requires
        spec_instructions_covered(items, blocks),
        item matches ListingItem::Instruction { addr, .. } ==> spec_covered(blocks, addr as int),
    ensures
        spec_instructions_covered(items.push(item), blocks),
{
    let pushed = items.push(item);
    assert forall|k: int| 0 <= k < pushed.len() implies (#[trigger] pushed[k] matches
        ListingItem::Instruction { addr, .. } ==> spec_covered(blocks, addr as int)) by {
        if k < items.len() {
            assert(pushed[k] == items[k]);
        }
    }
}

/// Lay the program out as listing items, given the coalesced blocks and
/// the labels: label lines come right before their target instruction in
/// label-list order, block addresses are decoded as instructions, and
/// everything outside the blocks becomes data rows of at most eight
/// words.  The non-label items partition the whole program: every word
/// appears in exactly one item.
pub fn layout_listing(
    program: &Vec<u16>,
    blocks: &Vec<ExecBlock>,
    labels: &Vec<JumpLabel>,
) -> (items: Vec<ListingItem>)
    requires
        program@.len() <= 0x8000,
        forall|i: int, j: int| 0 <= i < j < blocks@.len() ==> blocks@[i].end < blocks@[j].start,
        forall|j: int| 0 <= j < blocks@.len() ==> #[trigger] blocks@[j].start <= blocks@[j].end,
    ensures
        spec_items_partition(items@, 0, program@.len() as int),
        spec_labels_placed(items@, labels@),
        spec_rows_uncovered(items@, blocks@),
        spec_instructions_covered(items@, blocks@),
        forall|k: int| 0 <= k < items@.len() ==> (#[trigger] items@[k] matches
            ListingItem::Label { from, at } ==> labels@.contains(
            JumpLabel { from, target: at },
        )),
        forall|k: int| 0 <= k < items@.len() ==> spec_item_wf(
            #[trigger] items@[k],
            program@.len() as int,
        ),
{
    let mut items: Vec<ListingItem> = Vec::new();
    let mut current: usize = 0;
    let mut bi: usize = 0;
    while current < program.len()
        invariant
            program@.len() <= 0x8000,
            current <= program@.len(),
            bi <= blocks@.len(),
            forall|i: int, j: int| 0 <= i < j < blocks@.len() ==> blocks@[i].end
                < blocks@[j].start,
            forall|j: int| 0 <= j < blocks@.len() ==> #[trigger] blocks@[j].start
                <= blocks@[j].end,
            forall|j: int| 0 <= j < bi ==> (#[trigger] blocks@[j].end) < current,
            spec_items_partition(items@, 0, current as int),
            spec_labels_placed(items@, labels@),
            spec_rows_uncovered(items@, blocks@),
            spec_instructions_covered(items@, blocks@),
            forall|k: int| 0 <= k < items@.len() ==> (#[trigger] items@[k] matches
                ListingItem::Label { from, at } ==> labels@.contains(
                JumpLabel { from, target: at },
            )),
            forall|k: int| 0 <= k < items@.len() ==> spec_item_wf(
                #[trigger] items@[k],
                program@.len() as int,
            ),
        decreases program@.len() - current,
    {
        // Skip blocks that end before the current address.
        while bi < blocks.len() && (blocks[bi].end as usize) < current
            invariant
                bi <= blocks@.len(),
                forall|j: int| 0 <= j < bi ==> (#[trigger] blocks@[j].end) < current,
            decreases blocks@.len() - bi,
        {
            bi = bi + 1;
        }
        let in_block = bi < blocks.len() && blocks[bi].start as usize <= current;
        if in_block {
            proof {
                assert(spec_covered(blocks@, current as int));
            }
            // Label lines for every jump that lands here, then the
            // instruction itself.
            let ghost pre_items = items@;
            let mut li: usize = 0;
            while li < labels.len()
                invariant
                    li <= labels@.len(),
                    current < program@.len(),
                    items@.len() == pre_items.len() + spec_labels_at(
                        labels@.take(li as int),
                        current as int,
                    ).len(),
                    items@.take(pre_items.len() as int) == pre_items,
                    forall|m: int| 0 <= m < spec_labels_at(
                        labels@.take(li as int),
                        current as int,
                    ).len() ==> items@[pre_items.len() + m] == (ListingItem::Label {
                        from: spec_labels_at(labels@.take(li as int), current as int)[m].from,
                        at: current as u16,
                    }),
                    spec_items_partition(items@, 0, current as int),
                    spec_labels_placed(items@, labels@),
                    spec_rows_uncovered(items@, blocks@),
                    spec_instructions_covered(items@, blocks@),
                    forall|k: int| 0 <= k < items@.len() ==> (#[trigger] items@[k] matches
                        ListingItem::Label { from, at } ==> labels@.contains(
                        JumpLabel { from, target: at },
                    )),
                    forall|k: int| 0 <= k < items@.len() ==> spec_item_wf(
                        #[trigger] items@[k],
                        program@.len() as int,
                    ),
                decreases labels@.len() - li,
            {
                let label = labels[li];
                proof {
                    lemma_labels_at_snoc(labels@, li as int, current as int);
                }
                if label.target as usize == current {
                    let item = ListingItem::Label { from: label.from, at: label.target };
                    proof {
                        lemma_partition_push(items@, 0, current as int, item);
                        lemma_placed_push(items@, labels@, item);
                        lemma_rows_push(items@, blocks@, item);
                        lemma_instr_push(items@, blocks@, item);
                    }
                    items.push(item);
                    proof {
                        assert(items@.take(pre_items.len() as int) =~= pre_items);
                        assert(labels@.take(li + 1)[li as int] == labels@[li as int]);
                    }
                }
                li = li + 1;
            }
            proof {
                assert(labels@.take(labels@.len() as int) =~= labels@);
            }
            let ghost run = spec_labels_at(labels@, current as int);
            let instr = Operation::from(program[current]);
            let count = match instr {
                Operation::Error(_) => 0usize,
                _ => instr.operands() as usize,
            };
            let stop = if program.len() - current - 1 < count {
                program.len()
            } else {
                current + 1 + count
            };
            let item = ListingItem::Instruction { addr: current as u16, stop: stop as u16 };
            proof {
                lemma_partition_push(items@, 0, current as int, item);
                assert(items@.len() == pre_items.len() + run.len());
                assert forall|m: int| 0 <= m < run.len() implies items@[items@.len() - run.len()
                    + m] == (ListingItem::Label { from: run[m].from, at: current as u16 }) by {
                    assert(items@[pre_items.len() + m] == (ListingItem::Label {
                        from: run[m].from,
                        at: current as u16,
                    }));
                }
                lemma_placed_push(items@, labels@, item);
                lemma_rows_push(items@, blocks@, item);
                lemma_instr_push(items@, blocks@, item);
            }
            items.push(item);
            current = stop;
        } else {
            // A data region runs until the next block (or the end); its
            // addresses belong to no block at all.
            let region_stop = if bi < blocks.len() && (blocks[bi].start as usize) < program.len() {
                blocks[bi].start as usize
            } else {
                program.len()
            };
            proof {
                assert forall|a: int| current <= a < region_stop implies !spec_covered(
                    blocks@,
                    a,
                ) by {
                    if spec_covered(blocks@, a) {
                        let j = choose|j: int|
                            0 <= j < blocks@.len() && (#[trigger] blocks@[j].start) <= a
                                <= blocks@[j].end;
                        if j < bi {
                            assert(blocks@[j].end < current);
                        } else {
                            assert(bi < blocks@.len());
                            if j > bi {
                                assert(blocks@[bi as int].end < blocks@[j].start);
                            }
                            assert(blocks@[j].start >= blocks@[bi as int].start);
                            assert(blocks@[j].start > a);
                        }
                    }
                }
            }
            let mut row = current;
            while row < region_stop
                invariant
                    current <= row <= region_stop <= program@.len(),
                    program@.len() <= 0x8000,
                    forall|a: int| current <= a < region_stop ==> !spec_covered(blocks@, a),
                    spec_items_partition(items@, 0, row as int),
                    spec_labels_placed(items@, labels@),
                    spec_rows_uncovered(items@, blocks@),
                    spec_instructions_covered(items@, blocks@),
                    forall|k: int| 0 <= k < items@.len() ==> (#[trigger] items@[k] matches
                        ListingItem::Label { from, at } ==> labels@.contains(
                        JumpLabel { from, target: at },
                    )),
                    forall|k: int| 0 <= k < items@.len() ==> spec_item_wf(
                        #[trigger] items@[k],
                        program@.len() as int,
                    ),
                decreases region_stop - row,
            {
                let row_stop = if region_stop - row < 8 {
                    region_stop
                } else {
                    row + 8
                };
                let item = ListingItem::DataRow { addr: row as u16, stop: row_stop as u16 };
                proof {
                    lemma_partition_push(items@, 0, row as int, item);
                    lemma_placed_push(items@, labels@, item);
                    lemma_rows_push(items@, blocks@, item);
                    lemma_instr_push(items@, blocks@, item);
                }
                items.push(item);
                row = row_stop;
            }
            current = region_stop;
        }
    }
    items
}

/// The two-character shorthand of an instruction-valued data word.
pub open spec fn spec_instr_short(w: u16) -> Seq<char> {
    if w == 0 {
        "hl"@
    } else if w == 1 {
        "st"@
    } else if w == 2 {
        "ps"@
    } else if w == 3 {
        "po"@
    } else if w == 4 {
        "eq"@
    } else if w == 5 {
        "gt"@
    } else if w == 6 {
        "jm"@
    } else if w == 7 {
        "jt"@
    } else if w == 8 {
        "jf"@
    } else if w == 9 {
        "+ "@
    } else if w == 10 {
        "* "@
    } else if w == 11 {
        "% "@
    } else if w == 12 {
        "& "@
    } else if w == 13 {
        "| "@
    } else if w == 14 {
        "^ "@
    } else if w == 15 {
        "rm"@
    } else if w == 16 {
        "wm"@
    } else if w == 17 {
        "cl"@
    } else if w == 18 {
        "rt"@
    } else if w == 19 {
        "ou"@
    } else if w == 20 {
        "in"@
    } else {
        "np"@
    }
}

/// The two-character shorthand, as a string slice.
fn instr_short_str(w: u16) -> (s: &'static str)
    requires
        w <= 21,
    ensures
        s@ == spec_instr_short(w),
{
    match w {
        0 => "hl",
        1 => "st",
        2 => "ps",
        3 => "po",
        4 => "eq",
        5 => "gt",
        6 => "jm",
        7 => "jt",
        8 => "jf",
        9 => "+ ",
        10 => "* ",
        11 => "% ",
        12 => "& ",
        13 => "| ",
        14 => "^ ",
        15 => "rm",
        16 => "wm",
        17 => "cl",
        18 => "rt",
        19 => "ou",
        20 => "in",
        _ => "np",
    }
}

/// A data word's four-character gloss: instruction shorthand for values
/// up to 21, the character itself for printable ASCII, hex otherwise.
pub open spec fn spec_word_rep(w: u16) -> Seq<char> {
    if w <= 21 {
        "!"@ + spec_instr_short(w) + " "@
    } else if 0x20 <= w <= 0x7e {
        seq![(w as u8) as char] + "   "@
    } else {
        crate::render::spec_hex4(w)
    }
}

/// Append a data word's gloss.
fn push_word_rep(out: &mut String, w: u16)
    ensures
        final(out)@ == old(out)@ + spec_word_rep(w),
{
    if w <= 21 {
        out.append("!");
        out.append(instr_short_str(w));
        out.append(" ");
        proof {
            reveal_strlit("!");
            reveal_strlit(" ");
            assert(final(out)@ =~= old(out)@ + spec_word_rep(w));
        }
    } else if 0x20 <= w && w <= 0x7e {
        crate::dump::push_char(out, (w as u8) as char);
        out.append("   ");
        proof {
            assert(final(out)@ =~= old(out)@ + spec_word_rep(w));
        }
    } else {
        crate::render::push_hex4(out, w);
    }
}

/// Whether a byte is ASCII punctuation.
pub open spec fn is_punct(b: u8) -> bool {
    (0x21 <= b <= 0x2F) || (0x3A <= b <= 0x40) || (0x5B <= b <= 0x60) || (0x7B <= b <= 0x7E)
}

/// The human-readable gloss appended to an `Out` instruction line: the
/// character being printed, quoted space, hex for control characters.
pub open spec fn spec_out_gloss(w: u16) -> Seq<char> {
    let code = (w % 128) as u8;
    if crate::dump::is_alnum(code) || is_punct(code) {
        "  "@ + seq![code as char]
    } else if code == 0x20 {
        "  ' '"@
    } else if code < 0x20 || code == 0x7F {
        "  0x"@ + seq![
            crate::render::spec_hex_digit((code as u16) / 16),
            crate::render::spec_hex_digit((code as u16) % 16),
        ]
    } else {
        "  \u{FFFD}"@
    }
}

/// Append the `Out` gloss for an operand word.
fn push_out_gloss(out: &mut String, w: u16)
    ensures
        final(out)@ == old(out)@ + spec_out_gloss(w),
{
    let code = (w % 128) as u8;
    if (0x30 <= code && code <= 0x39) || (0x41 <= code && code <= 0x5A) || (0x61 <= code && code
        <= 0x7A) || (0x21 <= code && code <= 0x2F) || (0x3A <= code && code <= 0x40) || (0x5B
        <= code && code <= 0x60) || (0x7B <= code && code <= 0x7E) {
        out.append("  ");
        crate::dump::push_char(out, code as char);
        proof {
            reveal_strlit("  ");
            assert(final(out)@ =~= old(out)@ + spec_out_gloss(w));
        }
    } else if code == 0x20 {
        out.append("  ' '");
    } else if code < 0x20 || code == 0x7F {
        out.append("  0x");
        out.append(crate::render::hex_digit_str((code as u16) / 16));
        out.append(crate::render::hex_digit_str((code as u16) % 16));
        proof {
            assert(final(out)@ =~= old(out)@ + spec_out_gloss(w));
        }
    } else {
        out.append("  \u{FFFD}");
    }
}

/// The text of one listing item.
pub open spec fn spec_listing_line(mem: Seq<u16>, item: ListingItem) -> Seq<char> {
    match item {
        ListingItem::Label { from, .. } => "     :l"@ + crate::render::spec_hex4(from),
        ListingItem::Instruction { addr, stop } => {
            let w = mem[addr as int];
            let head = crate::render::spec_hex4(addr) + " "@ + crate::render::spec_mnemonic(
                spec_decode(w),
            ) + spec_listing_operands(mem, addr + 1, stop as int);
            if spec_decode(w) is Out && addr + 1 < stop {
                head + spec_out_gloss(mem[addr + 1])
            } else {
                head
            }
        },
        ListingItem::DataRow { addr, stop } => crate::render::spec_hex4(addr) + ": "@
            + spec_data_words(mem, addr as int, stop as int) + spec_data_padding(
            (stop - addr) as int,
        ) + "| "@ + spec_data_glosses(mem, addr as int, stop as int),
    }
}

/// The operand renderings of an instruction line, each with a leading
/// space.
pub open spec fn spec_listing_operands(mem: Seq<u16>, from: int, to: int) -> Seq<char>
    decreases to - from,
{
    if from >= to {
        Seq::empty()
    } else {
        " "@ + crate::render::spec_render_value(spec_parse_value(mem[from]))
            + spec_listing_operands(mem, from + 1, to)
    }
}

/// The hex words of a data row, each followed by a space.
pub open spec fn spec_data_words(mem: Seq<u16>, from: int, to: int) -> Seq<char>
    decreases to - from,
{
    if from >= to {
        Seq::empty()
    } else {
        crate::render::spec_hex4(mem[from]) + " "@ + spec_data_words(mem, from + 1, to)
    }
}

/// Five blank columns for every missing word of a short data row.
pub open spec fn spec_data_padding(n: int) -> Seq<char>
    decreases 8 - n,
{
    if n >= 8 {
        Seq::empty()
    } else {
        "     "@ + spec_data_padding(n + 1)
    }
}

/// The glosses of a data row's words.
pub open spec fn spec_data_glosses(mem: Seq<u16>, from: int, to: int) -> Seq<char>
    decreases to - from,
{
    if from >= to {
        Seq::empty()
    } else {
        spec_word_rep(mem[from]) + spec_data_glosses(mem, from + 1, to)
    }
}

/// Render one listing item as its line of text.
pub fn render_listing_item(program: &Vec<u16>, item: &ListingItem) -> (s: String)
    requires
        spec_item_wf(*item, program@.len() as int),
    ensures
        s@ == spec_listing_line(program@, *item),
{
    let mut out = String::new();
    match item {
        ListingItem::Label { from, .. } => {
            out.append("     :l");
            crate::render::push_hex4(&mut out, *from);
        },
        ListingItem::Instruction { addr, stop } => {
            let w = program[*addr as usize];
            let op = Operation::from(w);
            crate::render::push_hex4(&mut out, *addr);
            out.append(" ");
            out.append(crate::render::mnemonic_str(&op));
            let ghost head0 = crate::render::spec_hex4(*addr) + " "@
                + crate::render::spec_mnemonic(spec_decode(w));
            proof {
                assert(out@ =~= head0);
            }
            let mut j = *addr as usize + 1;
            while j < *stop as usize
                invariant
                    *addr as usize + 1 <= j <= *stop as usize,
                    *stop as usize <= program@.len(),
                    out@ == head0 + spec_listing_operands(program@, *addr as int + 1, j as int),
                    head0 == crate::render::spec_hex4(*addr) + " "@
                        + crate::render::spec_mnemonic(spec_decode(program@[*addr as int])),
                decreases *stop as usize - j,
            {
                out.append(" ");
                crate::render::push_value(&mut out, &ParsedValue::from(program[j]));
                proof {
                    lemma_listing_operands_snoc(program@, *addr as int + 1, j as int);
                    assert(out@ =~= head0 + spec_listing_operands(
                        program@,
                        *addr as int + 1,
                        j + 1,
                    ));
                }
                j = j + 1;
            }
            if let Operation::Out = op {
                if (*addr as usize) + 1 < *stop as usize {
                    push_out_gloss(&mut out, program[*addr as usize + 1]);
                }
            }
            proof {
                assert(out@ =~= spec_listing_line(program@, *item));
            }
        },
        ListingItem::DataRow { addr, stop } => {
            crate::render::push_hex4(&mut out, *addr);
            out.append(": ");
            let ghost head0 = crate::render::spec_hex4(*addr) + ": "@;
            proof {
                reveal_strlit(": ");
                assert(out@ =~= head0);
            }
            let mut j = *addr as usize;
            while j < *stop as usize
                invariant
                    *addr as usize <= j <= *stop as usize,
                    *stop as usize <= program@.len(),
                    out@ == head0 + spec_data_words(program@, *addr as int, j as int),
                    head0 == crate::render::spec_hex4(*addr) + ": "@,
                decreases *stop as usize - j,
            {
                crate::render::push_hex4(&mut out, program[j]);
                out.append(" ");
                proof {
                    reveal_strlit(" ");
                    lemma_data_words_snoc(program@, *addr as int, j as int);
                    assert(out@ =~= head0 + spec_data_words(program@, *addr as int, j + 1));
                }
                j = j + 1;
            }
            let mut n = *stop as usize - *addr as usize;
            let ghost head1 = out@;
            let ghost n0 = n as int;
            while n < 8
                invariant
                    n0 <= n <= 8,
                    out@ == head1 + spec_data_padding_range(n0, n as int),
                decreases 8 - n,
            {
                out.append("     ");
                proof {
                    lemma_data_padding_range_snoc(n0, n as int);
                    assert(out@ =~= head1 + spec_data_padding_range(n0, n as int + 1));
                }
                n = n + 1;
            }
            proof {
                lemma_data_padding_range_full(n0);
            }
            out.append("| ");
            let ghost head2 = out@;
            let mut j = *addr as usize;
            while j < *stop as usize
                invariant
                    *addr as usize <= j <= *stop as usize,
                    *stop as usize <= program@.len(),
                    out@ == head2 + spec_data_glosses(program@, *addr as int, j as int),
                    head2 == head1 + spec_data_padding(n0) + "| "@,
                decreases *stop as usize - j,
            {
                push_word_rep(&mut out, program[j]);
                proof {
                    lemma_data_glosses_snoc(program@, *addr as int, j as int);
                    assert(out@ =~= head2 + spec_data_glosses(program@, *addr as int, j + 1));
                }
                j = j + 1;
            }
            proof {
                assert(out@ =~= spec_listing_line(program@, *item));
            }
        },
    }
    out
}

/// Padding already emitted while the counter ran from `n0` to `n`.
pub open spec fn spec_data_padding_range(n0: int, n: int) -> Seq<char>
    decreases n - n0,
{
    if n <= n0 {
        Seq::empty()
    } else {
        spec_data_padding_range(n0, n - 1) + "     "@
    }
}

proof fn lemma_data_padding_range_snoc(n0: int, n: int)
    requires
        n0 <= n,
    ensures
        spec_data_padding_range(n0, n + 1) == spec_data_padding_range(n0, n) + "     "@,
{
}

/// Counting from `n0` to 8 yields exactly the padding of a row of `n0`
/// words.
proof fn lemma_data_padding_range_full(n0: int)
    ensures
        n0 <= 8 ==> spec_data_padding_range(n0, 8) == spec_data_padding(n0),
        n0 > 8 ==> spec_data_padding(n0) == Seq::<char>::empty(),
    decreases 8 - n0,
{
    if n0 < 8 {
        lemma_data_padding_range_full(n0 + 1);
        lemma_data_padding_range_shift(n0, 8);
        assert(spec_data_padding(n0) == "     "@ + spec_data_padding(n0 + 1));
    }
}

/// Padding ranges shift: the range from `n0` equals five spaces plus the
/// range from `n0 + 1`.
proof fn lemma_data_padding_range_shift(n0: int, n: int)
    requires
        n0 < n,
    ensures
        spec_data_padding_range(n0, n) == "     "@ + spec_data_padding_range(n0 + 1, n),
    decreases n - n0,
{
    if n0 + 1 == n {
        assert(spec_data_padding_range(n0, n0) == Seq::<char>::empty());
        assert(spec_data_padding_range(n0 + 1, n) == Seq::<char>::empty());
        assert(spec_data_padding_range(n0, n) == spec_data_padding_range(n0, n0) + "     "@);
        assert(spec_data_padding_range(n0, n) =~= "     "@ + spec_data_padding_range(n0 + 1, n));
    } else {
        lemma_data_padding_range_shift(n0, n - 1);
        assert(spec_data_padding_range(n0, n) == spec_data_padding_range(n0, n - 1) + "     "@);
        assert(spec_data_padding_range(n0 + 1, n) == spec_data_padding_range(n0 + 1, n - 1)
            + "     "@);
        assert(spec_data_padding_range(n0, n) =~= "     "@ + spec_data_padding_range(n0 + 1, n));
    }
}

proof fn lemma_listing_operands_snoc(mem: Seq<u16>, from: int, j: int)
    requires
        from <= j < mem.len(),
    ensures
        spec_listing_operands(mem, from, j + 1) == spec_listing_operands(mem, from, j) + (" "@
            + crate::render::spec_render_value(spec_parse_value(mem[j]))),
    decreases j - from,
{
    let item = " "@ + crate::render::spec_render_value(spec_parse_value(mem[j]));
    if from == j {
        assert(spec_listing_operands(mem, from, j) == Seq::<char>::empty());
        assert(spec_listing_operands(mem, j + 1, j + 1) == Seq::<char>::empty());
        assert(spec_listing_operands(mem, from, j + 1) == item + spec_listing_operands(
            mem,
            j + 1,
            j + 1,
        ));
        assert(spec_listing_operands(mem, from, j + 1) =~= spec_listing_operands(mem, from, j)
            + item);
    } else {
        lemma_listing_operands_snoc(mem, from + 1, j);
        let head = " "@ + crate::render::spec_render_value(spec_parse_value(mem[from]));
        assert(spec_listing_operands(mem, from, j + 1) == head + spec_listing_operands(
            mem,
            from + 1,
            j + 1,
        ));
        assert(spec_listing_operands(mem, from, j) == head + spec_listing_operands(
            mem,
            from + 1,
            j,
        ));
        assert(spec_listing_operands(mem, from, j + 1) =~= spec_listing_operands(mem, from, j)
            + item);
    }
}

proof fn lemma_data_words_snoc(mem: Seq<u16>, from: int, j: int)
    requires
        from <= j < mem.len(),
    ensures
        spec_data_words(mem, from, j + 1) == spec_data_words(mem, from, j)
            + (crate::render::spec_hex4(mem[j]) + " "@),
    decreases j - from,
{
    let item = crate::render::spec_hex4(mem[j]) + " "@;
    if from == j {
        assert(spec_data_words(mem, from, j) == Seq::<char>::empty());
        assert(spec_data_words(mem, j + 1, j + 1) == Seq::<char>::empty());
        assert(spec_data_words(mem, from, j + 1) == item + spec_data_words(mem, j + 1, j + 1));
        assert(spec_data_words(mem, from, j + 1) =~= spec_data_words(mem, from, j) + item);
    } else {
        lemma_data_words_snoc(mem, from + 1, j);
        let head = crate::render::spec_hex4(mem[from]) + " "@;
        assert(spec_data_words(mem, from, j + 1) == head + spec_data_words(mem, from + 1, j + 1));
        assert(spec_data_words(mem, from, j) == head + spec_data_words(mem, from + 1, j));
        assert(spec_data_words(mem, from, j + 1) =~= spec_data_words(mem, from, j) + item);
    }
}

proof fn lemma_data_glosses_snoc(mem: Seq<u16>, from: int, j: int)
    requires
        from <= j < mem.len(),
    ensures
        spec_data_glosses(mem, from, j + 1) == spec_data_glosses(mem, from, j) + spec_word_rep(
            mem[j],
        ),
    decreases j - from,
{
    let item = spec_word_rep(mem[j]);
    if from == j {
        assert(spec_data_glosses(mem, from, j) == Seq::<char>::empty());
        assert(spec_data_glosses(mem, j + 1, j + 1) == Seq::<char>::empty());
        assert(spec_data_glosses(mem, from, j + 1) == item + spec_data_glosses(mem, j + 1, j + 1));
        assert(spec_data_glosses(mem, from, j + 1) =~= spec_data_glosses(mem, from, j) + item);
    } else {
        lemma_data_glosses_snoc(mem, from + 1, j);
        let head = spec_word_rep(mem[from]);
        assert(spec_data_glosses(mem, from, j + 1) == head + spec_data_glosses(
            mem,
            from + 1,
            j + 1,
        ));
        assert(spec_data_glosses(mem, from, j) == head + spec_data_glosses(mem, from + 1, j));
        assert(spec_data_glosses(mem, from, j + 1) =~= spec_data_glosses(mem, from, j) + item);
    }
}

/// The three-line header of a listing file (followed by blank lines, as
/// the listing writer emits them).
pub open spec fn spec_listing_header(name: Seq<char>, words: nat) -> Seq<Seq<char>> {
    seq![
        "Data listing for file "@ + name,
        "Binary size: "@ + crate::render::spec_dec(words * 2) + " bytes ("@
            + crate::render::spec_dec(words) + " words)"@,
        Seq::<char>::empty(),
        Seq::<char>::empty(),
        Seq::<char>::empty(),
    ]
}

/// Build the listing header lines for a program of `words` words.
pub fn listing_header(name: &str, words: usize) -> (lines: Vec<String>)
    requires
        words <= 0x8000,
    ensures
        lines@.map_values(|s: String| s@) == spec_listing_header(name@, words as nat),
{
    let mut lines: Vec<String> = Vec::new();
    let mut l1 = String::new();
    l1.append("Data listing for file ");
    l1.append(name);
    lines.push(l1);
    let mut l2 = String::new();
    l2.append("Binary size: ");
    crate::render::push_dec(&mut l2, (words as u64) * 2);
    l2.append(" bytes (");
    crate::render::push_dec(&mut l2, words as u64);
    l2.append(" words)");
    lines.push(l2);
    lines.push(String::new());
    lines.push(String::new());
    lines.push(String::new());
    proof {
        assert(lines@.map_values(|s: String| s@) =~= spec_listing_header(name@, words as nat));
    }
    lines
}

/// The whole disassembly: discover blocks from address 0 and the given
/// extra entry points, coalesce them, synthesize labels, and render the
/// listing.  The returned items partition the program — every word of the
/// input appears in exactly one listing line — each line is the exact
/// text of its item, the discovery fixpoint's labels stand right before
/// their target instructions, data rows hold only addresses discovery
/// never walked, and every instruction line starts at a walked address.
pub fn parse_program(program: &Vec<u16>, additional_starts: &Vec<u16>) -> (r: (
    Vec<ListingItem>,
    Vec<String>,
))
    requires
        program@.len() <= 0x8000,
    ensures
        spec_items_partition(r.0@, 0, program@.len() as int),
        r.1@.len() == r.0@.len(),
        forall|k: int| 0 <= k < r.0@.len() ==> r.1@[k]@ == spec_listing_line(
            program@,
            #[trigger] r.0@[k],
        ),
        spec_labels_placed(
            r.0@,
            spec_labels(
                spec_discover(
                    program@,
                    seq![0u16] + additional_starts@,
                    Set::<int>::empty(),
                    Seq::<ExecBlock>::empty(),
                    Seq::<Jump>::empty(),
                ).1,
            ),
        ),
        spec_rows_uncovered(
            r.0@,
            spec_discover(
                program@,
                seq![0u16] + additional_starts@,
                Set::<int>::empty(),
                Seq::<ExecBlock>::empty(),
                Seq::<Jump>::empty(),
            ).0,
        ),
        spec_instructions_covered(
            r.0@,
            spec_discover(
                program@,
                seq![0u16] + additional_starts@,
                Set::<int>::empty(),
                Seq::<ExecBlock>::empty(),
                Seq::<Jump>::empty(),
            ).0,
        ),
{
    let (blocks, jumps) = discover_blocks(program, additional_starts);
    let ghost blocks0 = blocks@;
    let sorted = sort_blocks(blocks);
    proof {
        assert(spec_blocks_wf(blocks0, program@.len() as int));
        assert(spec_blocks_wf(sorted@, program@.len() as int));
    }
    let merged = coalesce_blocks(sorted);
    let labels = labels_from_jumps(&jumps);
    let items = layout_listing(program, &merged, &labels);
    proof {
        // Sorting and coalescing cover the same addresses as discovery,
        // so the layout's coverage facts transfer to the fixpoint blocks.
        assert(spec_rows_uncovered(items@, blocks0)) by {
            assert forall|k: int| 0 <= k < items@.len() implies (#[trigger] items@[k] matches
                ListingItem::DataRow { addr, stop } ==> forall|a: int| addr <= a < stop
                ==> !spec_covered(blocks0, a)) by {
                if items@[k] is DataRow {
                    let addr = items@[k]->DataRow_addr;
                    let stop = items@[k]->DataRow_stop;
                    assert forall|a: int| addr <= a < stop implies !spec_covered(blocks0, a) by {
                        assert(!spec_covered(merged@, a));
                    }
                }
            }
        }
        assert(spec_instructions_covered(items@, blocks0)) by {
            assert forall|k: int| 0 <= k < items@.len() implies (#[trigger] items@[k] matches
                ListingItem::Instruction { addr, .. } ==> spec_covered(blocks0, addr as int)) by {
                if items@[k] is Instruction {
                    assert(spec_covered(merged@, items@[k]->Instruction_addr as int));
                }
            }
        }
    }
    let mut lines: Vec<String> = Vec::new();
    let mut i: usize = 0;
    while i < items.len()
        invariant
            i <= items@.len(),
            lines@.len() == i,
            forall|k: int| 0 <= k < i ==> lines@[k]@ == spec_listing_line(
                program@,
                #[trigger] items@[k],
            ),
            forall|k: int| 0 <= k < items@.len() ==> spec_item_wf(
                #[trigger] items@[k],
                program@.len() as int,
            ),
        decreases items@.len() - i,
    {
        let line = render_listing_item(program, &items[i]);
        lines.push(line);
        i = i + 1;
    }
    (items, lines)
}

} // verus!
