# volta_analysis

Symbolic analysis of GPU kernels. A lowered kernel is executed once for every
thread of a block, with the elements of its input arrays and its parameters as
symbols. The run either ends in an error that says what is wrong with the
kernel - a data race, a missing fence or wait, a deadlock, an access outside
every variable, a value that should be concrete and is not - or leaves one
expression for every element of every output array. Two runs can then be
compared element by element.

Every function under `src/` carries a contract. Verus proves all of them but those
of the calls into outside crates, which are taken on trust (see below).

## Layout

| Path | What it holds |
| --- | --- |
| `src/types.rs`, `symbols.rs`, `tensor_map.rs`, `tensor_core.rs`, `lowered.rs` | the lowered instruction set and what it refers to |
| `src/canon/` | exact dyadic-scaled rational coefficients |
| `src/symbolic/` | exact real constants, the interned expressions, equality of polynomials |
| `src/eval/config.rs`, `setup.rs`, `outputs.rs` | what a run is given, how it starts, what it leaves |
| `src/eval/machine.rs`, `interp.rs`, `lists.rs` | the state of a run, in the model and in memory |
| `src/eval/memory.rs`, `mem_access.rs`, `race.rs`, `mbarrier.rs` | granule memory, checked accesses, race detection, memory barriers |
| `src/eval/alu.rs`, `lanes.rs`, `arith.rs`, `int_ops.rs`, `fp8.rs` | register instructions |
| `src/eval/mem_ops.rs`, `tensor_ops.rs`, `tcgen05_mma.rs`, `wgmma.rs`, `tensor_memory.rs`, `tensor_map_table.rs` | memory, tensor-memory and tensor-map instructions |
| `src/eval/warp.rs`, `collective.rs`, `warpgroup.rs`, `cooperative.rs`, `wgmma_regs.rs` | operations of warps and warpgroups |
| `src/eval/step.rs`, `schedule.rs`, `laws.rs` | one instruction, a whole run, and what holds of runs |
| `src/eval/history.rs`, `mbarrier_history.rs`, `wgmma_history.rs` | races, barrier phases and register hazards, stated over what happened |
| `src/driver.rs` | kernels of a module, pairing of outputs, verdicts, snapshots, profiles |
| `tests/` | scenarios, from single formulas to whole kernels |
| `app/` | ordinary Rust around the library: floats, timing, text output, persisted dumps |

## How contracts are written

`Machine` is the mathematical state of a run; `Interpreter` is the state in
memory, and its view is a `Machine`. Each instruction is a spec function on
`Machine` that gives the next state and the result, and the executable method
of `Interpreter` states that it computes exactly that pair. A run is stated
with `Machine::runs_to`; `eval/laws.rs` shows that it has one end.

Expressions are never evaluated numerically here: an arena interns them, and
constants are folded exactly.

What is taken on trust is the behaviour of `fixedbitset::FixedBitSet`, stated
in `src/eval/bitset.rs`, and of the `id_collections::IdVec`s that number the
instructions and their guards, memory barriers, parameters, threads and local
memories, stated in `src/lowered.rs`, `src/eval/mbarrier.rs` and
`src/eval/lists.rs`.
