//! The execution state: a fixed array of 30 * 1024 unsigned byte cells, all
//! zero at the start, and a data pointer into it. Cell arithmetic wraps
//! modulo 256. The language leaves a pointer that moves outside the array
//! undefined; this implementation makes that defined by failing fast:
//! the move itself is refused and reported, the state is left unchanged.

use vstd::prelude::*;

verus! {

/// The number of cells on the tape.
pub const TAPE_LEN: usize = 30720;

/// One cell incremented, wrapping past 255 back to 0.
pub open spec fn inc_byte(v: u8) -> u8 {
    if v == 255 {
        0
    } else {
        (v + 1) as u8
    }
}

/// One cell decremented, wrapping past 0 back to 255.
pub open spec fn dec_byte(v: u8) -> u8 {
    if v == 0 {
        255
    } else {
        (v - 1) as u8
    }
}

/// A cell incremented `n` times.
pub open spec fn iter_inc(v: u8, n: nat) -> u8
    decreases n,
{
    if n == 0 {
        v
    } else {
        inc_byte(iter_inc(v, (n - 1) as nat))
    }
}

/// Incrementing is addition modulo 256.
pub proof fn lemma_iter_inc_mod(v: u8, n: nat)
    ensures
        iter_inc(v, n) == ((v + n) % 256) as u8,
    decreases n,
{
    if n == 0 {
        assert((v + 0) % 256 == v as int);
    } else {
        lemma_iter_inc_mod(v, (n - 1) as nat);
        assert(inc_byte((((v + n - 1) % 256) as u8)) == ((v + n) % 256) as u8) by {
            vstd::arithmetic::div_mod::lemma_add_mod_noop(v + n - 1, 1, 256);
            assert(1int % 256 == 1);
            assert(((v + n - 1) % 256 + 1) % 256 == (v + n) % 256);
        }
    }
}

/// Wrap-around makes the cell values a cyclic group of order 256: 256
/// increments return every cell value to itself.
pub proof fn lemma_increment_256_is_identity(v: u8)
    ensures
        iter_inc(v, 256) == v,
{
    lemma_iter_inc_mod(v, 256);
    assert((v + 256) % 256 == v as int) by {
        vstd::arithmetic::div_mod::lemma_mod_sub_multiples_vanish(v + 256, 256);
    }
}

/// Decrement undoes increment, and increment undoes decrement, on every cell
/// value.
pub proof fn lemma_inc_dec_inverse(v: u8)
    ensures
        dec_byte(inc_byte(v)) == v,
        inc_byte(dec_byte(v)) == v,
{
}

/// An input byte as it is stored: carriage return and line feed are
/// normalized to the newline value 10; every other byte is kept unchanged.
pub open spec fn normalize_input_byte(b: u8) -> u8 {
    if b == 13 || b == 10 {
        10
    } else {
        b
    }
}

/// The tape and the data pointer.
pub struct State {
    pub memory: Vec<u8>,
    pub pointer: usize,
}

impl State {
    /// The structural invariant: the tape has its fixed length and the
    /// pointer stands on a cell.
    pub open spec fn wf(self) -> bool {
        &&& self.memory@.len() == TAPE_LEN
        &&& self.pointer < TAPE_LEN
    }

    /// A fresh state: every cell zero, the pointer on the first cell.
    pub fn new() -> (s: State)
        ensures
            s.wf(),
            s.pointer == 0,
            s.memory@ =~= Seq::new(TAPE_LEN as nat, |i: int| 0u8),
    {
        let memory: Vec<u8> = vec![0u8; TAPE_LEN];
        assert(memory@ =~= Seq::new(TAPE_LEN as nat, |i: int| 0u8));
        State { memory, pointer: 0 }
    }

    /// Move the pointer one cell forward; refused, with the state unchanged,
    /// when the pointer would leave the tape.
    pub fn move_forward(&mut self) -> (r: bool)
        requires
            old(self).wf(),
        ensures
            final(self).wf(),
            final(self).memory@ == old(self).memory@,
            r == (old(self).pointer + 1 < TAPE_LEN),
            r ==> final(self).pointer == old(self).pointer + 1,
            !r ==> final(self).pointer == old(self).pointer,
    {
        if self.pointer + 1 < TAPE_LEN {
            self.pointer = self.pointer + 1;
            true
        } else {
            false
        }
    }

    /// Move the pointer one cell backward; refused, with the state unchanged,
    /// when the pointer would leave the tape.
    pub fn move_backward(&mut self) -> (r: bool)
        requires
            old(self).wf(),
        ensures
            final(self).wf(),
            final(self).memory@ == old(self).memory@,
            r == (old(self).pointer > 0),
            r ==> final(self).pointer == old(self).pointer - 1,
            !r ==> final(self).pointer == old(self).pointer,
    {
        if self.pointer > 0 {
            self.pointer = self.pointer - 1;
            true
        } else {
            false
        }
    }

    /// Add one to the cell under the pointer, wrapping past 255.
    pub fn increment_cell(&mut self)
        requires
            old(self).wf(),
        ensures
            final(self).wf(),
            final(self).pointer == old(self).pointer,
            final(self).memory@ == old(self).memory@.update(
                old(self).pointer as int,
                inc_byte(old(self).memory@[old(self).pointer as int]),
            ),
    {
        let v = self.memory[self.pointer];
        if v == 255 {
            self.memory.set(self.pointer, 0);
        } else {
            self.memory.set(self.pointer, v + 1);
        }
    }

    /// Subtract one from the cell under the pointer, wrapping past 0.
    pub fn decrement_cell(&mut self)
        requires
            old(self).wf(),
        ensures
            final(self).wf(),
            final(self).pointer == old(self).pointer,
            final(self).memory@ == old(self).memory@.update(
                old(self).pointer as int,
                dec_byte(old(self).memory@[old(self).pointer as int]),
            ),
    {
        let v = self.memory[self.pointer];
        if v == 0 {
            self.memory.set(self.pointer, 255);
        } else {
            self.memory.set(self.pointer, v - 1);
        }
    }

    /// The value of the cell under the pointer.
    pub fn read_cell_value(&self) -> (v: u8)
        requires
            self.wf(),
        ensures
            v == self.memory@[self.pointer as int],
    {
        self.memory[self.pointer]
    }

    /// Store a value in the cell under the pointer.
    pub fn write_cell_value(&mut self, v: u8)
        requires
            old(self).wf(),
        ensures
            final(self).wf(),
            final(self).pointer == old(self).pointer,
            final(self).memory@ == old(self).memory@.update(old(self).pointer as int, v),
    {
        self.memory.set(self.pointer, v);
    }
}

} // verus!
