//! The mathematical model of a run: a small-step semantics over the decoded
//! instruction sequence. The interpreter's contract pins its result to this
//! model, and the loop laws — a zero guard skips the body, a nonzero guard
//! re-enters it, and both scans route past nested matched pairs — are proved
//! of it here.

use vstd::prelude::*;

use crate::cmd::Command;
use crate::tape::{dec_byte, inc_byte, normalize_input_byte, TAPE_LEN};

verus! {

/// A machine configuration: the tape, the data pointer, the instruction
/// pointer, how much of the input is consumed, the output written so far, and
/// whether the run has failed (the data pointer was moved off the tape).
#[verifier::ext_equal]
pub ghost struct Machine {
    pub mem: Seq<u8>,
    pub ptr: int,
    pub ip: int,
    pub in_pos: int,
    pub output: Seq<u8>,
    pub failed: bool,
}

/// The configuration a run starts from: all cells zero, everything at the
/// beginning.
pub open spec fn init_machine() -> Machine {
    Machine {
        mem: Seq::new(TAPE_LEN as nat, |i: int| 0u8),
        ptr: 0,
        ip: 0,
        in_pos: 0,
        output: Seq::empty(),
        failed: false,
    }
}

/// A machine keeps running while it has not failed and the instruction
/// pointer still stands on an instruction.
pub open spec fn running(prog: Seq<Command>, m: Machine) -> bool {
    &&& !m.failed
    &&& 0 <= m.ip < prog.len()
}

/// Structural bounds that every reachable configuration satisfies.
pub open spec fn wf_machine(prog: Seq<Command>, input: Seq<u8>, m: Machine) -> bool {
    &&& m.mem.len() == TAPE_LEN
    &&& 0 <= m.ptr < TAPE_LEN
    &&& 0 <= m.ip <= prog.len()
    &&& 0 <= m.in_pos <= input.len()
}

/// The nesting weight of one instruction: `[` opens, `]` closes.
pub open spec fn delta(c: Command) -> int {
    match c {
        Command::LoopStart => 1,
        Command::LoopEnd => -1,
        _ => 0,
    }
}

/// The net nesting weight of the instructions in `[s, e)`.
pub open spec fn net(prog: Seq<Command>, s: int, e: int) -> int
    decreases e - s,
{
    if s >= e {
        0
    } else {
        delta(prog[s]) + net(prog, s + 1, e)
    }
}

/// The forward scan: from position `i` with `depth` still-open brackets
/// pending, the position just after the `]` that closes the construct, or
/// `None` when the sequence ends first (an unmatched `[`).
pub open spec fn fwd_match(prog: Seq<Command>, i: int, depth: int) -> Option<int>
    decreases prog.len() - i,
{
    if i < 0 || i >= prog.len() {
        None
    } else if prog[i] == Command::LoopEnd {
        if depth == 0 {
            Some(i + 1)
        } else {
            fwd_match(prog, i + 1, depth - 1)
        }
    } else if prog[i] == Command::LoopStart {
        fwd_match(prog, i + 1, depth + 1)
    } else {
        fwd_match(prog, i + 1, depth)
    }
}

/// The backward scan: from position `i` downward with `depth` still-open
/// brackets pending, the position just after the `[` that opens the
/// construct, or `None` when the sequence begins first (an unmatched `]`).
pub open spec fn bwd_match(prog: Seq<Command>, i: int, depth: int) -> Option<int>
    decreases i + 1,
{
    if i < 0 || i >= prog.len() {
        None
    } else if prog[i] == Command::LoopStart {
        if depth == 0 {
            Some(i + 1)
        } else {
            bwd_match(prog, i - 1, depth - 1)
        }
    } else if prog[i] == Command::LoopEnd {
        bwd_match(prog, i - 1, depth + 1)
    } else {
        bwd_match(prog, i - 1, depth)
    }
}

/// `prog[i]` and `prog[j]` are a matched `[` / `]` pair: the segment strictly
/// between them is balanced and never closes more than it has opened.
pub open spec fn matched_pair(prog: Seq<Command>, i: int, j: int) -> bool {
    &&& 0 <= i < j < prog.len()
    &&& prog[i] == Command::LoopStart
    &&& prog[j] == Command::LoopEnd
    &&& net(prog, i + 1, j) == 0
    &&& forall|k: int| i + 1 <= k <= j ==> #[trigger] net(prog, i + 1, k) >= 0
}

/// One step of the machine, at a running configuration.
pub open spec fn step(prog: Seq<Command>, input: Seq<u8>, m: Machine) -> Machine
    recommends
        running(prog, m),
        wf_machine(prog, input, m),
{
    match prog[m.ip] {
        Command::IncrementPointer => if m.ptr + 1 < TAPE_LEN {
            Machine { ptr: m.ptr + 1, ip: m.ip + 1, ..m }
        } else {
            Machine { failed: true, ..m }
        },
        Command::DecrementPointer => if m.ptr > 0 {
            Machine { ptr: m.ptr - 1, ip: m.ip + 1, ..m }
        } else {
            Machine { failed: true, ..m }
        },
        Command::IncrementByte => Machine {
            mem: m.mem.update(m.ptr, inc_byte(m.mem[m.ptr])),
            ip: m.ip + 1,
            ..m
        },
        Command::DecrementByte => Machine {
            mem: m.mem.update(m.ptr, dec_byte(m.mem[m.ptr])),
            ip: m.ip + 1,
            ..m
        },
        Command::WriteByte => Machine { output: m.output.push(m.mem[m.ptr]), ip: m.ip + 1, ..m },
        Command::ReadByte => if m.in_pos < input.len() {
            Machine {
                mem: m.mem.update(m.ptr, normalize_input_byte(input[m.in_pos])),
                in_pos: m.in_pos + 1,
                ip: m.ip + 1,
                ..m
            }
        } else {
            Machine { mem: m.mem.update(m.ptr, 0u8), ip: m.ip + 1, ..m }
        },
        Command::LoopStart => if m.mem[m.ptr] == 0 {
            match fwd_match(prog, m.ip + 1, 0) {
                Some(t) => Machine { ip: t, ..m },
                None => Machine { ip: m.ip + 1, ..m },
            }
        } else {
            Machine { ip: m.ip + 1, ..m }
        },
        Command::LoopEnd => if m.mem[m.ptr] != 0 {
            match bwd_match(prog, m.ip - 1, 0) {
                Some(t) => Machine { ip: t, ..m },
                None => Machine { ip: m.ip + 1, ..m },
            }
        } else {
            Machine { ip: m.ip + 1, ..m }
        },
    }
}

/// The machine after at most `n` steps: stepping stops early at a
/// configuration that is no longer running.
pub open spec fn steps(prog: Seq<Command>, input: Seq<u8>, m: Machine, n: nat) -> Machine
    decreases n,
{
    if n == 0 || !running(prog, m) {
        m
    } else {
        steps(prog, input, step(prog, input, m), (n - 1) as nat)
    }
}

/// A forward scan that succeeds lands within the sequence, just after a `]`.
pub proof fn lemma_fwd_match_bounds(prog: Seq<Command>, i: int, depth: int, t: int)
    requires
        fwd_match(prog, i, depth) == Some(t),
    ensures
        i < t <= prog.len(),
        prog[t - 1] == Command::LoopEnd,
    decreases prog.len() - i,
{
    if 0 <= i < prog.len() {
        if prog[i] == Command::LoopEnd && depth == 0 {
        } else if prog[i] == Command::LoopEnd {
            lemma_fwd_match_bounds(prog, i + 1, depth - 1, t);
        } else if prog[i] == Command::LoopStart {
            lemma_fwd_match_bounds(prog, i + 1, depth + 1, t);
        } else {
            lemma_fwd_match_bounds(prog, i + 1, depth, t);
        }
    }
}

/// A backward scan that succeeds lands within the sequence, just after a `[`.
pub proof fn lemma_bwd_match_bounds(prog: Seq<Command>, i: int, depth: int, t: int)
    requires
        bwd_match(prog, i, depth) == Some(t),
    ensures
        0 < t <= i + 1,
        t <= prog.len(),
        prog[t - 1] == Command::LoopStart,
    decreases i + 1,
{
    if 0 <= i < prog.len() {
        if prog[i] == Command::LoopStart && depth == 0 {
        } else if prog[i] == Command::LoopStart {
            lemma_bwd_match_bounds(prog, i - 1, depth - 1, t);
        } else if prog[i] == Command::LoopEnd {
            lemma_bwd_match_bounds(prog, i - 1, depth + 1, t);
        } else {
            lemma_bwd_match_bounds(prog, i - 1, depth, t);
        }
    }
}

/// The net weight splits at any point between the bounds.
pub proof fn lemma_net_split(prog: Seq<Command>, a: int, b: int, c: int)
    requires
        a <= b <= c,
    ensures
        net(prog, a, c) == net(prog, a, b) + net(prog, b, c),
    decreases b - a,
{
    if a < b {
        lemma_net_split(prog, a + 1, b, c);
    }
}

/// The forward scan from `s` with `depth` pending finds exactly the first
/// closing bracket at which the pending count returns to zero.
proof fn lemma_fwd_finds(prog: Seq<Command>, s: int, j: int, d: int)
    requires
        0 <= s <= j < prog.len(),
        prog[j] == Command::LoopEnd,
        d + net(prog, s, j) == 0,
        forall|k: int| s <= k <= j ==> d + #[trigger] net(prog, s, k) >= 0,
    ensures
        fwd_match(prog, s, d) == Some(j + 1),
    decreases j - s,
{
    assert(net(prog, s, s) == 0);
    if s == j {
        assert(d == 0);
    } else {
        assert forall|k: int| s + 1 <= k <= j implies (d + delta(prog[s])) + #[trigger] net(
            prog,
            s + 1,
            k,
        ) >= 0 by {
            assert(net(prog, s, k) == delta(prog[s]) + net(prog, s + 1, k));
            assert(d + net(prog, s, k) >= 0);
        }
        assert(net(prog, s, j) == delta(prog[s]) + net(prog, s + 1, j));
        if prog[s] == Command::LoopEnd {
            assert(net(prog, s, s + 1) == delta(prog[s]) + net(prog, s + 1, s + 1));
            assert(d + net(prog, s, s + 1) >= 0);
            assert(d >= 1);
            lemma_fwd_finds(prog, s + 1, j, d - 1);
        } else if prog[s] == Command::LoopStart {
            lemma_fwd_finds(prog, s + 1, j, d + 1);
        } else {
            lemma_fwd_finds(prog, s + 1, j, d);
        }
    }
}

/// The backward scan from `s` downward with `depth` pending finds exactly the
/// opening bracket `i` at which the pending count returns to zero.
proof fn lemma_bwd_finds(prog: Seq<Command>, s: int, i: int, d: int)
    requires
        0 <= i <= s < prog.len(),
        prog[i] == Command::LoopStart,
        d == net(prog, i + 1, s + 1),
        forall|k: int| i < k <= s && prog[k] == Command::LoopStart ==> #[trigger] net(prog, k + 1, s + 1) != d,
    ensures
        bwd_match(prog, s, d) == Some(i + 1),
    decreases s - i,
{
    if s == i {
        assert(net(prog, i + 1, i + 1) == 0);
        assert(d == 0);
    } else {
        assert(net(prog, s + 1, s + 1) == 0);
        assert(net(prog, s, s + 1) == delta(prog[s]) + net(prog, s + 1, s + 1));
        assert forall|k: int| i < k <= s - 1 && prog[k] == Command::LoopStart implies #[trigger] net(
            prog,
            k + 1,
            s,
        ) != d - delta(prog[s]) by {
            lemma_net_split(prog, k + 1, s, s + 1);
            assert(net(prog, k + 1, s + 1) != d);
        }
        lemma_net_split(prog, i + 1, s, s + 1);
        if prog[s] == Command::LoopStart {
            assert(net(prog, s + 1, s + 1) != d);
            assert(d != 0);
            lemma_bwd_finds(prog, s - 1, i, d - 1);
        } else if prog[s] == Command::LoopEnd {
            lemma_bwd_finds(prog, s - 1, i, d + 1);
        } else {
            lemma_bwd_finds(prog, s - 1, i, d);
        }
    }
}

/// The forward scan started just after a `[` lands just after its matched
/// `]` — nested pairs between them are routed past, never matched early.
pub proof fn lemma_matched_forward_scan(prog: Seq<Command>, i: int, j: int)
    requires
        matched_pair(prog, i, j),
    ensures
        fwd_match(prog, i + 1, 0) == Some(j + 1),
{
    lemma_fwd_finds(prog, i + 1, j, 0);
}

/// The backward scan started just before a `]` lands just after its matched
/// `[` — nested pairs between them are routed past, never matched early.
pub proof fn lemma_matched_backward_scan(prog: Seq<Command>, i: int, j: int)
    requires
        matched_pair(prog, i, j),
    ensures
        bwd_match(prog, j - 1, 0) == Some(i + 1),
{
    assert(net(prog, i + 1, j) == 0);
    assert forall|k: int| i < k <= j - 1 && prog[k] == Command::LoopStart implies net(
        prog,
        k + 1,
        j,
    ) != 0 by {
        if net(prog, k + 1, j) == 0 {
            lemma_net_split(prog, i + 1, k, j);
            lemma_net_split(prog, k, k + 1, j);
            assert(net(prog, k, k + 1) == delta(prog[k]) + net(prog, k + 1, k + 1));
            assert(net(prog, i + 1, k) == -1);
        }
    }
    lemma_bwd_finds(prog, j - 1, i, 0);
}

/// A `[` whose guard cell is zero: one step carries control to just past the
/// matching `]`, and tape, pointer, input and output are untouched — the body
/// is executed zero times.
pub proof fn lemma_loop_start_zero_skips_body(
    prog: Seq<Command>,
    input: Seq<u8>,
    m: Machine,
    j: int,
)
    requires
        running(prog, m),
        matched_pair(prog, m.ip, j),
        m.mem[m.ptr] == 0,
    ensures
        step(prog, input, m) == (Machine { ip: j + 1, ..m }),
{
    lemma_matched_forward_scan(prog, m.ip, j);
}

/// A `[` whose guard cell is nonzero: one step enters the body.
pub proof fn lemma_loop_start_nonzero_enters_body(prog: Seq<Command>, input: Seq<u8>, m: Machine)
    requires
        running(prog, m),
        prog[m.ip] == Command::LoopStart,
        m.mem[m.ptr] != 0,
    ensures
        step(prog, input, m) == (Machine { ip: m.ip + 1, ..m }),
{
}

/// A `]` whose guard cell is nonzero: one step carries control back to just
/// past the matching `[`, so the body runs again.
pub proof fn lemma_loop_end_nonzero_repeats_body(
    prog: Seq<Command>,
    input: Seq<u8>,
    m: Machine,
    i: int,
)
    requires
        running(prog, m),
        matched_pair(prog, i, m.ip),
        m.mem[m.ptr] != 0,
    ensures
        step(prog, input, m) == (Machine { ip: i + 1, ..m }),
{
    lemma_matched_backward_scan(prog, i, m.ip);
}

/// A `]` whose guard cell is zero: one step falls through, and control
/// resumes exactly at the instruction after the closing bracket.
pub proof fn lemma_loop_end_zero_resumes_after(prog: Seq<Command>, input: Seq<u8>, m: Machine)
    requires
        running(prog, m),
        prog[m.ip] == Command::LoopEnd,
        m.mem[m.ptr] == 0,
    ensures
        step(prog, input, m) == (Machine { ip: m.ip + 1, ..m }),
{
}

/// A configuration that is not running stays as it is, however many steps are
/// offered.
pub proof fn lemma_steps_frozen(prog: Seq<Command>, input: Seq<u8>, m: Machine, n: nat)
    requires
        !running(prog, m),
    ensures
        steps(prog, input, m, n) == m,
{
}

/// Step counts add up: `a + b` steps are `a` steps followed by `b` steps.
pub proof fn lemma_steps_add(prog: Seq<Command>, input: Seq<u8>, m: Machine, a: nat, b: nat)
    ensures
        steps(prog, input, m, a + b) == steps(prog, input, steps(prog, input, m, a), b),
    decreases a,
{
    if a == 0 {
    } else if !running(prog, m) {
        lemma_steps_frozen(prog, input, m, a + b);
        lemma_steps_frozen(prog, input, m, a);
        lemma_steps_frozen(prog, input, m, b);
    } else {
        lemma_steps_add(prog, input, step(prog, input, m), (a - 1) as nat, b);
    }
}

/// While the machine is still running after `n` steps, the next step extends
/// the run by one.
pub proof fn lemma_steps_snoc(prog: Seq<Command>, input: Seq<u8>, m: Machine, n: nat)
    requires
        running(prog, steps(prog, input, m, n)),
    ensures
        steps(prog, input, m, n + 1) == step(prog, input, steps(prog, input, m, n)),
    decreases n,
{
    if n == 0 {
        assert(steps(prog, input, m, 0) == m);
        assert(steps(prog, input, m, 1) == steps(prog, input, step(prog, input, m), 0));
    } else if !running(prog, m) {
        assert(steps(prog, input, m, n) == m);
    } else {
        assert(steps(prog, input, m, n) == steps(prog, input, step(prog, input, m), (n - 1) as nat));
        assert(steps(prog, input, m, n + 1) == steps(
            prog,
            input,
            step(prog, input, m),
            ((n + 1) - 1) as nat,
        ));
        lemma_steps_snoc(prog, input, step(prog, input, m), (n - 1) as nat);
        assert((n - 1) as nat + 1 == n);
    }
}

} // verus!
