//! Architectural storage: the register file, the data RAM, the instruction
//! ROM, the flags and the condition unit.

use crate::bits::{get_lsb, get_msb, into_word};
use vstd::arithmetic::power2::{lemma2_to64, lemma_pow2_strictly_increases, lemma_pow2_unfold, pow2};
use vstd::prelude::*;

verus! {

/// Number of addressable bytes of data RAM, and of words of instruction ROM.
pub const MEMORY_SIZE: usize = 65536;

/// Index of the stack pointer in the register file.
pub const SP: u16 = 5;

/// Index of the program counter in the register file.
pub const PC: u16 = 6;

/// Index of the read-only input register.
pub const IN: u16 = 7;

/// The eight 16-bit registers: `t0..t3`, `bp`, `sp`, `pc` and `in`.
#[derive(Debug, Clone, Copy)]
pub struct RegFile {
    pub t: [u16; 4],
    pub bp: u16,
    pub sp: u16,
    pub pc: u16,
    pub input: u16,
}

impl View for RegFile {
    type V = Seq<u16>;

    /// The registers in index order.
    open spec fn view(&self) -> Seq<u16> {
        seq![self.t[0], self.t[1], self.t[2], self.t[3], self.bp, self.sp, self.pc, self.input]
    }
}

/// The register file after a write of `data` to register `i`; a write to `in` is dropped.
pub open spec fn regs_written(regs: Seq<u16>, i: int, data: u16) -> Seq<u16> {
    if i == IN {
        regs
    } else {
        regs.update(i, data)
    }
}

impl RegFile {
    /// All registers zero.
    pub fn new() -> (r: Self)
        ensures
            r@ == seq![0u16, 0, 0, 0, 0, 0, 0, 0],
    {
        RegFile { t: [0; 4], bp: 0, sp: 0, pc: 0, input: 0 }
    }

    /// Reads register `i`.
    pub fn read(&self, i: u16) -> (r: u16)
        requires
            i < 8,
        ensures
            r == self@[i as int],
    {
        match i {
            0 => self.t[0],
            1 => self.t[1],
            2 => self.t[2],
            3 => self.t[3],
            4 => self.bp,
            5 => self.sp,
            6 => self.pc,
            _ => self.input,
        }
    }

    /// Writes `data` to register `i`; a write to `in` has no effect.
    pub fn write(&mut self, i: u16, data: u16)
        requires
            i < 8,
        ensures
            final(self)@ == regs_written(old(self)@, i as int, data),
    {
        match i {
            0 => self.t[0] = data,
            1 => self.t[1] = data,
            2 => self.t[2] = data,
            3 => self.t[3] = data,
            4 => self.bp = data,
            5 => self.sp = data,
            6 => self.pc = data,
            _ => {},
        }
        assert(self@ =~= regs_written(old(self)@, i as int, data));
    }
}

/// The little-endian word at an even address.
pub open spec fn word_at(data: Seq<u8>, addr: int) -> u16 {
    (data[addr + 1] * 256 + data[addr]) as u16
}

/// What a read of `addr` returns: a byte, zero-extended, when `byte_mode` is 1, else a word.
pub open spec fn ram_read(data: Seq<u8>, addr: int, byte_mode: int) -> u16 {
    if byte_mode == 1 {
        data[addr] as u16
    } else {
        word_at(data, addr)
    }
}

/// The RAM after a write of `value` to `addr`: its low byte when `byte_mode` is 1, else
/// the whole word, low byte first.
pub open spec fn ram_written(data: Seq<u8>, addr: int, value: u16, byte_mode: int) -> Seq<u8> {
    if byte_mode == 1 {
        data.update(addr, (value % 256) as u8)
    } else {
        data.update(addr, (value % 256) as u8).update(addr + 1, (value / 256) as u8)
    }
}

/// Whether an access in `byte_mode` at `addr` is allowed: word accesses need an even address.
pub open spec fn access_ok(addr: int, byte_mode: int) -> bool {
    byte_mode == 1 || (byte_mode == 0 && addr % 2 == 0)
}

/// The value of a string of binary digits, most significant first.
pub open spec fn binary_value(s: Seq<char>) -> nat
    decreases s.len(),
{
    if s.len() == 0 {
        0
    } else {
        2 * binary_value(s.drop_last()) + (if s.last() == '1' { 1nat } else { 0nat })
    }
}

/// Whether every character is a binary digit.
pub open spec fn is_binary(s: Seq<char>) -> bool {
    forall|i: int| 0 <= i < s.len() ==> (s[i] == '0' || s[i] == '1')
}

/// The `k`-th run of sixteen characters.
pub open spec fn chunk(s: Seq<char>, k: int) -> Seq<char> {
    s.subrange(16 * k, 16 * k + 16)
}

/// Byte-addressable data memory.
pub struct ByteRAM {
    pub data: [u8; MEMORY_SIZE],
}

impl ByteRAM {
    /// All bytes zero.
    pub fn new() -> (r: Self)
        ensures
            r.data@ == Seq::new(MEMORY_SIZE as nat, |i: int| 0u8),
    {
        let r = ByteRAM { data: [0; MEMORY_SIZE] };
        assert(r.data@ =~= Seq::new(MEMORY_SIZE as nat, |i: int| 0u8));
        r
    }

    /// Reads a byte (`byte_mode` 1) or a little-endian word (`byte_mode` 0) at `addr`.
    pub fn read(&self, addr: u16, byte_mode: u16) -> (r: u16)
        requires
            access_ok(addr as int, byte_mode as int),
        ensures
            r == ram_read(self.data@, addr as int, byte_mode as int),
    {
        if byte_mode == 1 {
            self.data[addr as usize] as u16
        } else {
            let msb = self.data[(addr + 1) as usize];
            let lsb = self.data[addr as usize];
            into_word(msb, lsb)
        }
    }

    /// Writes the low byte of `write_data` (`byte_mode` 1) or the whole word, little-endian
    /// (`byte_mode` 0), at `addr`.
    pub fn write(&mut self, addr: u16, write_data: u16, byte_mode: u16)
        requires
            access_ok(addr as int, byte_mode as int),
        ensures
            final(self).data@ == ram_written(old(self).data@, addr as int, write_data, byte_mode as int),
    {
        if byte_mode == 1 {
            self.data[addr as usize] = get_lsb(write_data);
        } else {
            self.data[addr as usize] = get_lsb(write_data);
            self.data[(addr + 1) as usize] = get_msb(write_data);
        }
    }

    /// Copies an image to the start of memory; the bytes past it are kept.
    pub fn load_binary(&mut self, binary_data: &[u8])
        requires
            binary_data@.len() <= MEMORY_SIZE,
        ensures
            final(self).data@ == binary_data@ + old(self).data@.skip(binary_data@.len() as int),
    {
        let n = binary_data.len();
        let mut i: usize = 0;
        while i < n
            invariant
                n == binary_data@.len() <= MEMORY_SIZE,
                i <= n,
                self.data@ == binary_data@.take(i as int) + old(self).data@.skip(i as int),
            decreases n - i,
        {
            self.data[i] = binary_data[i];
            i += 1;
            assert(self.data@ =~= binary_data@.take(i as int) + old(self).data@.skip(i as int));
        }
        assert(binary_data@.take(n as int) =~= binary_data@);
    }

    /// Loads a string of binary digits, sixteen per byte, from address 0 on; the bytes
    /// past the image are kept.
    pub fn load_binary_str(&mut self, binary_string: &str)
        requires
            binary_string@.len() % 16 == 0,
            is_binary(binary_string@),
            forall|k: int| 0 <= k < binary_string@.len() / 16 ==> binary_value(#[trigger] chunk(binary_string@, k)) < 256,
        ensures
            forall|k: int|
                0 <= k < MEMORY_SIZE ==> final(self).data@[k] == (if k < binary_string@.len() / 16 {
                    binary_value(chunk(binary_string@, k)) as u8
                } else {
                    old(self).data@[k]
                }),
    {
        let chars = chars_of(binary_string);
        let n = chars.len() / 16;
        let mut k: usize = 0;
        while k < n
            invariant
                chars@ == binary_string@,
                n == chars@.len() / 16,
                chars@.len() % 16 == 0,
                is_binary(chars@),
                forall|j: int| 0 <= j < n ==> binary_value(#[trigger] chunk(chars@, j)) < 256,
                k <= n,
                forall|j: int|
                    0 <= j < MEMORY_SIZE ==> self.data@[j] == (if j < k && j < MEMORY_SIZE {
                        binary_value(chunk(chars@, j)) as u8
                    } else {
                        old(self).data@[j]
                    }),
            decreases n - k,
        {
            if k < MEMORY_SIZE {
                let v = parse_binary(&chars, 16 * k, 16 * k + 16);
                assert(chars@.subrange(16 * k as int, 16 * k + 16) == chunk(chars@, k as int));
                self.data[k] = v as u8;
            }
            k += 1;
        }
    }
}

/// The characters of a string, in order.
pub fn chars_of(s: &str) -> (r: Vec<char>)
    ensures
        r@ == s@,
{
    let mut v: Vec<char> = Vec::new();
    for c in it: s.chars()
        invariant
            v@ == it.seq().take(it.index() as int),
    {
        v.push(c);
    }
    v
}

/// The value of the binary digits `chars[from..to]`.
fn parse_binary(chars: &Vec<char>, from: usize, to: usize) -> (r: u32)
    requires
        from <= to <= chars@.len(),
        to - from <= 16,
        is_binary(chars@.subrange(from as int, to as int)),
    ensures
        r == binary_value(chars@.subrange(from as int, to as int)),
        r < 0x10000,
{
    let mut v: u32 = 0;
    let mut i: usize = from;
    assert(pow2(0) == 1) by {
        lemma2_to64();
    }
    while i < to
        invariant
            from <= i <= to <= chars@.len(),
            to - from <= 16,
            is_binary(chars@.subrange(from as int, to as int)),
            v == binary_value(chars@.subrange(from as int, i as int)),
            v < pow2((i - from) as nat),
        decreases to - i,
    {
        assert(chars@.subrange(from as int, i + 1).drop_last() =~= chars@.subrange(from as int, i as int));
        assert(chars@.subrange(from as int, to as int)[i - from] == chars@[i as int]);
        let bit: u32 = if chars[i] == '1' { 1 } else { 0 };
        proof {
            lemma_pow2_unfold((i + 1 - from) as nat);
            if i + 1 - from < 16 {
                lemma_pow2_strictly_increases((i + 1 - from) as nat, 16);
            }
            lemma2_to64();
        }
        v = 2 * v + bit;
        i += 1;
    }
    proof {
        lemma2_to64();
        if to - from < 16 {
            lemma_pow2_strictly_increases((to - from) as nat, 16);
        }
    }
    v
}

/// Word-addressed instruction memory.
pub struct WordROM {
    pub data: [u16; MEMORY_SIZE],
}

impl WordROM {
    /// All words zero.
    pub fn new() -> (r: Self)
        ensures
            r.data@ == Seq::new(MEMORY_SIZE as nat, |i: int| 0u16),
    {
        let r = WordROM { data: [0; MEMORY_SIZE] };
        assert(r.data@ =~= Seq::new(MEMORY_SIZE as nat, |i: int| 0u16));
        r
    }

    /// The word at `addr` and the one after it; the address wraps past the end.
    pub fn read(&self, addr: u16) -> (r: [u16; 2])
        ensures
            r@ == seq![self.data@[addr as int], self.data@[(addr + 1) % 0x10000]],
    {
        let next = ((addr as u32 + 1) % 0x10000) as usize;
        let r = [self.data[addr as usize], self.data[next]];
        assert(r@ =~= seq![self.data@[addr as int], self.data@[(addr + 1) % 0x10000]]);
        r
    }

    /// Copies a program to the start of memory; the words past it are kept.
    pub fn load_binary(&mut self, binary_data: &[u16])
        requires
            binary_data@.len() <= MEMORY_SIZE,
        ensures
            final(self).data@ == binary_data@ + old(self).data@.skip(binary_data@.len() as int),
    {
        let n = binary_data.len();
        let mut i: usize = 0;
        while i < n
            invariant
                n == binary_data@.len() <= MEMORY_SIZE,
                i <= n,
                self.data@ == binary_data@.take(i as int) + old(self).data@.skip(i as int),
            decreases n - i,
        {
            self.data[i] = binary_data[i];
            i += 1;
            assert(self.data@ =~= binary_data@.take(i as int) + old(self).data@.skip(i as int));
        }
        assert(binary_data@.take(n as int) =~= binary_data@);
    }

    /// Loads a string of binary digits, sixteen per word, from address 0 on; the words
    /// past the image are kept.
    pub fn load_binary_str(&mut self, binary_string: &str)
        requires
            binary_string@.len() % 16 == 0,
            is_binary(binary_string@),
        ensures
            forall|k: int|
                0 <= k < MEMORY_SIZE ==> final(self).data@[k] == (if k < binary_string@.len() / 16 {
                    binary_value(chunk(binary_string@, k)) as u16
                } else {
                    old(self).data@[k]
                }),
    {
        let chars = chars_of(binary_string);
        let n = chars.len() / 16;
        let mut k: usize = 0;
        while k < n
            invariant
                chars@ == binary_string@,
                n == chars@.len() / 16,
                chars@.len() % 16 == 0,
                is_binary(chars@),
                k <= n,
                forall|j: int|
                    0 <= j < MEMORY_SIZE ==> self.data@[j] == (if j < k && j < MEMORY_SIZE {
                        binary_value(chunk(chars@, j)) as u16
                    } else {
                        old(self).data@[j]
                    }),
            decreases n - k,
        {
            if k < MEMORY_SIZE {
                assert(chars@.subrange(16 * k as int, 16 * k + 16) == chunk(chars@, k as int));
                let v = parse_binary(&chars, 16 * k, 16 * k + 16);
                self.data[k] = v as u16;
            }
            k += 1;
        }
    }
}

/// The four condition flags.
#[derive(Debug, Clone, Copy, PartialEq, Eq, Structural)]
pub struct Flags {
    pub n: bool,
    pub z: bool,
    pub c: bool,
    pub v: bool,
}

impl Flags {
    /// All flags clear.
    pub fn new() -> (r: Self)
        ensures
            r == (Flags { n: false, z: false, c: false, v: false }),
    {
        Flags { n: false, z: false, c: false, v: false }
    }
}

/// Whether condition code `cond` holds under flags `f`.
pub open spec fn cond_holds(cond: int, f: Flags) -> bool {
    if cond == 0 {
        f.z
    } else if cond == 1 {
        !f.z
    } else if cond == 2 {
        f.n != f.v
    } else if cond == 3 {
        f.z || f.n != f.v
    } else if cond == 4 {
        !f.z && f.n == f.v
    } else if cond == 5 {
        f.n == f.v
    } else if cond == 6 {
        !f.c
    } else if cond == 7 {
        !f.c || !f.z
    } else if cond == 8 {
        f.c && !f.z
    } else if cond == 9 {
        f.c
    } else if cond == 10 {
        f.n
    } else if cond == 11 {
        !f.n
    } else if cond == 12 {
        f.v
    } else if cond == 13 {
        !f.v
    } else {
        cond == 14
    }
}

/// Holds the committed flags and evaluates branch conditions on them.
pub struct CondUnit {
    pub flags: Flags,
}

impl CondUnit {
    /// All flags clear.
    pub fn new() -> (r: Self)
        ensures
            r.flags == (Flags { n: false, z: false, c: false, v: false }),
    {
        CondUnit { flags: Flags::new() }
    }

    /// Commits a set of flags.
    pub fn write_flags(&mut self, wflags: &Flags)
        ensures
            final(self).flags == *wflags,
    {
        self.flags.n = wflags.n;
        self.flags.z = wflags.z;
        self.flags.c = wflags.c;
        self.flags.v = wflags.v;
    }

    /// Whether the 4-bit condition code `cond` holds under the committed flags.
    pub fn check(&self, cond: u16) -> (r: bool)
        requires
            cond < 16,
        ensures
            r == cond_holds(cond as int, self.flags),
    {
        let n = self.flags.n;
        let z = self.flags.z;
        let c = self.flags.c;
        let v = self.flags.v;
        match cond {
            0b0000 => z,
            0b0001 => !z,
            0b0010 => n != v,
            0b0011 => z || (n != v),
            0b0100 => !z && (n == v),
            0b0101 => n == v,
            0b0110 => !c,
            0b0111 => !c || !z,
            0b1000 => c && !z,
            0b1001 => c,
            0b1010 => n,
            0b1011 => !n,
            0b1100 => v,
            0b1101 => !v,
            0b1110 => true,
            _ => false,
        }
    }
}

} // verus!
