//! The data structures the pipeline shares: instruction, register and
//! addressing-mode descriptors, symbols and symbol tables, scopes,
//! operands, the memory pool and the values the interpreter carries.

use vstd::prelude::*;
use vstd::pervasive::VecAdditionalExecFns;
use vstd::arithmetic::power2::pow2;
use crate::binarystring::{
    is_binary, repeat_char_seq, repeat_char, subrange_vec, spec_signed_int, signed_int,
};
use crate::defaults::SymbolTypes;
use crate::tokens::TypedToken;

verus! {

/// A machine instruction descriptor: its opcode and how many operands it
/// can take (0, 1 or 2).
#[derive(Clone, Copy, PartialEq, Eq, Structural, Debug)]
pub struct Instruction {
    pub opcode: u64,
    pub operands: u64,
}

/// A special-register descriptor: its 1-based offset from the end of the
/// general-purpose register block.
#[derive(Clone, Copy, PartialEq, Eq, Structural, Debug)]
pub struct Register {
    pub offset: u64,
}

/// An addressing-mode descriptor: its canonical symbol character and its
/// opcode.
#[derive(Clone, Copy, PartialEq, Eq, Structural, Debug)]
pub struct AddressingMode {
    pub symbol: char,
    pub opcode: u64,
}

/// A declared symbol: the value it resolves to (an address once code has
/// been generated) and what kind of declaration produced it.
#[derive(Clone, Copy, PartialEq, Eq, Structural, Debug)]
pub struct Symbol {
    pub symbol_value: i64,
    pub symbol_type: SymbolTypes,
}

/// One named entry of a symbol table.
pub struct SymbolEntry {
    pub name: Vec<char>,
    pub symbol: Symbol,
}

/// A label-to-symbol mapping with unique keys, kept in insertion order.
pub struct SymbolTable {
    entries: Vec<SymbolEntry>,
}

/// The first symbol in the sequence of entries declared under `name`.
pub open spec fn spec_find_symbol(t: Seq<(Seq<char>, Symbol)>, name: Seq<char>) -> Option<Symbol>
    decreases t.len(),
{
    if t.len() == 0 {
        None
    } else if t[0].0 == name {
        Some(t[0].1)
    } else {
        spec_find_symbol(t.skip(1), name)
    }
}

/// No two entries share a name.
pub open spec fn spec_distinct_names(t: Seq<(Seq<char>, Symbol)>) -> bool {
    forall|i: int, j: int| 0 <= i < j < t.len() ==> t[i].0 != t[j].0
}

/// A name is found exactly when some entry carries it.
pub proof fn lemma_find_symbol_exists(t: Seq<(Seq<char>, Symbol)>, name: Seq<char>)
    ensures
        spec_find_symbol(t, name) is Some <==> exists|i: int| 0 <= i < t.len() && t[i].0 == name,
    decreases t.len(),
{
    if t.len() > 0 {
        lemma_find_symbol_exists(t.skip(1), name);
        if t[0].0 != name {
            assert forall|i: int| 0 <= i < t.len() && t[i].0 == name implies exists|j: int|
                0 <= j < t.skip(1).len() && t.skip(1)[j].0 == name by {
                assert(t.skip(1)[i - 1] == t[i]);
            }
            if exists|j: int| 0 <= j < t.skip(1).len() && t.skip(1)[j].0 == name {
                let j = choose|j: int| 0 <= j < t.skip(1).len() && t.skip(1)[j].0 == name;
                assert(t[j + 1] == t.skip(1)[j]);
            }
        }
    }
}

/// Appending an entry with a fresh name leaves old lookups unchanged and
/// makes the new name resolve to the appended symbol.
pub proof fn lemma_find_symbol_push(
    t: Seq<(Seq<char>, Symbol)>,
    name: Seq<char>,
    entry: (Seq<char>, Symbol),
)
    ensures
        name == entry.0 && spec_find_symbol(t, name) is None ==> spec_find_symbol(
            t.push(entry),
            name,
        ) == Some(entry.1),
        name != entry.0 ==> spec_find_symbol(t.push(entry), name) == spec_find_symbol(t, name),
    decreases t.len(),
{
    if t.len() == 0 {
        assert(t.push(entry)[0] == entry);
        assert(t.push(entry).skip(1) =~= Seq::<(Seq<char>, Symbol)>::empty());
        assert(spec_find_symbol(t.push(entry).skip(1), name) is None);
    } else {
        assert(t.push(entry)[0] == t[0]);
        assert(t.push(entry).skip(1) =~= t.skip(1).push(entry));
        lemma_find_symbol_push(t.skip(1), name, entry);
        if t[0].0 == name {
            assert(spec_find_symbol(t, name) == Some(t[0].1));
            assert(spec_find_symbol(t.push(entry), name) == Some(t[0].1));
        } else {
            assert(spec_find_symbol(t, name) == spec_find_symbol(t.skip(1), name));
            assert(spec_find_symbol(t.push(entry), name) == spec_find_symbol(
                t.skip(1).push(entry),
                name,
            ));
        }
    }
}

impl SymbolTable {
    /// The entries as (name, symbol) pairs, in insertion order.
    pub closed spec fn view(&self) -> Seq<(Seq<char>, Symbol)> {
        Seq::new(self.entries@.len(), |i: int| (self.entries@[i].name@, self.entries@[i].symbol))
    }

    /// The first symbol declared under `name`.
    pub open spec fn spec_lookup(&self, name: Seq<char>) -> Option<Symbol> {
        spec_find_symbol(self@, name)
    }

    /// Whether some entry carries `name`.
    pub open spec fn spec_contains(&self, name: Seq<char>) -> bool {
        self.spec_lookup(name) is Some
    }

    /// Entry names are unique.
    pub open spec fn well_formed(&self) -> bool {
        spec_distinct_names(self@)
    }

    /// A fresh, empty table.
    pub fn new() -> (r: SymbolTable)
        ensures
            r@ == Seq::<(Seq<char>, Symbol)>::empty(),
            r.well_formed(),
    {
        let r = SymbolTable { entries: Vec::new() };
        proof {
            assert(r@ =~= Seq::<(Seq<char>, Symbol)>::empty());
        }
        r
    }

    /// How many entries the table holds.
    pub fn len(&self) -> (r: usize)
        ensures
            r == self@.len(),
    {
        self.entries.len()
    }

    /// Look a name up.
    pub fn lookup(&self, name: &Vec<char>) -> (r: Option<Symbol>)
        ensures
            r == self.spec_lookup(name@),
    {
        proof {
            assert(self@.skip(0) =~= self@);
        }
        let mut i: usize = 0;
        while i < self.entries.len()
            invariant
                i <= self.entries@.len(),
                spec_find_symbol(self@.skip(i as int), name@) == spec_find_symbol(self@, name@),
                forall|j: int| 0 <= j < i ==> self@[j].0 != name@,
            decreases self.entries@.len() - i,
        {
            if crate::binarystring::chars_equal(&self.entries[i].name, name) {
                proof {
                    assert(self@.skip(i as int)[0] == self@[i as int]);
                }
                return Some(self.entries[i].symbol);
            }
            proof {
                assert(self@.skip(i as int)[0] == self@[i as int]);
                assert(self@.skip(i as int).skip(1) =~= self@.skip(i + 1));
            }
            i = i + 1;
        }
        proof {
            assert(self@.skip(i as int) =~= Seq::<(Seq<char>, Symbol)>::empty());
        }
        None
    }

    /// Whether a name is declared.
    pub fn contains(&self, name: &Vec<char>) -> (r: bool)
        ensures
            r == self.spec_contains(name@),
    {
        let found = self.lookup(name);
        match found {
            Some(_) => true,
            None => false,
        }
    }

    /// Add a new entry; the name must not be declared yet.
    pub fn insert(&mut self, name: Vec<char>, symbol: Symbol)
        requires
            !old(self).spec_contains(name@),
            old(self).well_formed(),
        ensures
            final(self)@ == old(self)@.push((name@, symbol)),
            final(self).well_formed(),
    {
        proof {
            lemma_find_symbol_exists(self@, name@);
        }
        let ghost old_view = self@;
        let ghost new_name = name@;
        self.entries.push(SymbolEntry { name, symbol });
        proof {
            assert(self@ =~= old_view.push((new_name, symbol)));
            assert forall|a: int, b: int| 0 <= a < b < self@.len() implies self@[a].0
                != self@[b].0 by {
                if b == self@.len() - 1 {
                    assert(!(exists|i: int| 0 <= i < old_view.len() && old_view[i].0 == new_name));
                }
            }
        }
    }

    /// The position of the first entry carrying `name`.
    pub fn find_index(&self, name: &Vec<char>) -> (r: Option<usize>)
        ensures
            r matches Some(i) ==> i < self@.len() && self@[i as int].0 == name@ && (forall|j: int|
                0 <= j < i ==> self@[j].0 != name@),
            r is Some <==> self.spec_contains(name@),
    {
        proof {
            lemma_find_symbol_exists(self@, name@);
        }
        let mut i: usize = 0;
        while i < self.entries.len()
            invariant
                i <= self.entries@.len(),
                forall|j: int| 0 <= j < i ==> self@[j].0 != name@,
            decreases self.entries@.len() - i,
        {
            if crate::binarystring::chars_equal(&self.entries[i].name, name) {
                proof {
                    assert(self@[i as int].0 == name@);
                    assert(exists|w: int| 0 <= w < self@.len() && self@[w].0 == name@);
                }
                return Some(i);
            }
            i = i + 1;
        }
        proof {
            if self.spec_contains(name@) {
                let w = choose|w: int| 0 <= w < self@.len() && self@[w].0 == name@;
                assert(self@[w].0 != name@);
                assert(false);
            }
        }
        None
    }

    /// Read the symbol of entry `i`.
    pub fn symbol_at(&self, i: usize) -> (r: Symbol)
        requires
            i < self@.len(),
        ensures
            r == self@[i as int].1,
    {
        self.entries[i].symbol
    }

    /// Copy the name of entry `i`.
    pub fn name_at(&self, i: usize) -> (r: Vec<char>)
        requires
            i < self@.len(),
        ensures
            r@ == self@[i as int].0,
    {
        subrange_vec(&self.entries[i].name, 0, self.entries[i].name.len())
    }

    /// Replace the symbol of entry `i`, keeping its name.
    pub fn update_symbol(&mut self, i: usize, symbol: Symbol)
        requires
            i < old(self)@.len(),
        ensures
            final(self)@ == old(self)@.update(i as int, (old(self)@[i as int].0, symbol)),
            final(self).well_formed() == old(self).well_formed(),
    {
        let ghost old_view = self@;
        let name = self.entries.remove(i);
        self.entries.insert(i, SymbolEntry { name: name.name, symbol });
        proof {
            assert(self@ =~= old_view.update(i as int, (old_view[i as int].0, symbol)));
            assert(spec_distinct_names(self@) == spec_distinct_names(old_view)) by {
                assert(forall|k: int| 0 <= k < self@.len() ==> self@[k].0 == old_view[k].0);
            }
        }
    }
}

/// A scope: its token stream, its symbol table, and how many instruction
/// statements and variables it declares.
pub struct Scope {
    pub tokens: Vec<TypedToken>,
    pub symbol_table: SymbolTable,
    pub num_instructions: u64,
    pub num_variables: u64,
}

/// One operand: its addressing-mode token and its value-bearing token.
pub struct Operand {
    pub addressing_mode: TypedToken,
    pub operand_value: TypedToken,
}

/// The memory pool: a sequence of binary words, each exactly
/// `architecture` characters wide, addressed by a signed index.  Negative
/// addresses land in the register block at the front of the pool.
pub struct Memory {
    number_registers: u64,
    architecture: u64,
    memory_pool: Vec<Vec<char>>,
}

impl Memory {
    /// The pool as a sequence of binary words.
    pub closed spec fn view(&self) -> Seq<Seq<char>> {
        Seq::new(self.memory_pool@.len(), |i: int| self.memory_pool@[i]@)
    }

    /// How many register cells sit at the front of the pool.
    pub closed spec fn spec_registers(&self) -> u64 {
        self.number_registers
    }

    /// The width of every word.
    pub closed spec fn spec_architecture(&self) -> u64 {
        self.architecture
    }

    /// Every word is exactly `architecture` binary characters, and the
    /// bounds that keep address arithmetic exact hold.
    pub open spec fn well_formed(&self) -> bool {
        &&& 2 <= self.spec_architecture() <= 62
        &&& self.spec_registers() <= 0x1000_0000
        &&& self.spec_registers() < self@.len() <= 0x4000_0000
        &&& forall|i: int|
            0 <= i < self@.len() ==> (#[trigger] self@[i]).len() == self.spec_architecture()
                && is_binary(self@[i])
    }

    /// Allocate a pool of `2^(operand_bits - 1) + number_registers` words,
    /// each `architecture` zeros.
    pub fn new(number_registers: u64, architecture: u64, operand_bits: u64) -> (r: Memory)
        requires
            2 <= architecture <= 62,
            1 <= operand_bits <= 29,
            1 <= number_registers <= 0x1000_0000,
        ensures
            r.well_formed(),
            r.spec_registers() == number_registers,
            r.spec_architecture() == architecture,
            r@.len() == pow2((operand_bits - 1) as nat) + number_registers,
            forall|i: int|
                0 <= i < r@.len() ==> #[trigger] r@[i] == repeat_char_seq(
                    '0',
                    architecture as nat,
                ),
    {
        let addresses = pow2_u64(operand_bits - 1);
        proof {
            crate::binarystring::lemma_pow2_monotonic((operand_bits - 1) as nat, 28);
            vstd::arithmetic::power2::lemma2_to64();
        }
        let memory_pool_length = addresses + number_registers;
        let mut memory_pool: Vec<Vec<char>> = Vec::new();
        let mut i: u64 = 0;
        while i < memory_pool_length
            invariant
                i <= memory_pool_length,
                memory_pool@.len() == i,
                forall|j: int|
                    0 <= j < i ==> #[trigger] memory_pool@[j]@ == repeat_char_seq(
                        '0',
                        architecture as nat,
                    ),
            decreases memory_pool_length - i,
        {
            memory_pool.push(repeat_char('0', architecture as usize));
            i = i + 1;
        }
        let r = Memory { number_registers, architecture, memory_pool };
        proof {
            assert(forall|i: int| 0 <= i < r@.len() ==> #[trigger] r@[i] == r.memory_pool@[i]@);
        }
        r
    }

    /// Whether a signed address maps into the pool.
    pub open spec fn spec_in_range(&self, address: int) -> bool {
        0 <= address + self.spec_registers() < self@.len()
    }

    /// Test whether a signed address maps into the pool.
    pub fn valid_address(&self, address: i64) -> (r: bool)
        requires
            self.well_formed(),
        ensures
            r == self.spec_in_range(address as int),
    {
        if address >= 0 {
            (address as u64) < (self.memory_pool.len() as u64) - self.number_registers
        } else {
            let negated = -(address + 1);
            (negated as u64) < self.number_registers
        }
    }

    /// The pool index a signed address maps to.
    fn calculate_address(&self, address: i64) -> (r: usize)
        requires
            self.well_formed(),
            self.spec_in_range(address as int),
        ensures
            r == address + self.spec_registers(),
    {
        if address >= 0 {
            (address as usize) + (self.number_registers as usize)
        } else {
            (self.number_registers as usize) - ((-(address + 1)) as usize) - 1
        }
    }

    /// Copy the word at a given address out of the pool.
    pub fn get(&self, address: i64) -> (r: Vec<char>)
        requires
            self.well_formed(),
            self.spec_in_range(address as int),
        ensures
            r@ == self@[address + self.spec_registers()],
            r@.len() == self.spec_architecture(),
            is_binary(r@),
    {
        let i = self.calculate_address(address);
        subrange_vec(&self.memory_pool[i], 0, self.memory_pool[i].len())
    }

    /// Place a binary word into the pool at a given address.
    pub fn insert_binary(&mut self, address: i64, value: Vec<char>)
        requires
            old(self).well_formed(),
            old(self).spec_in_range(address as int),
            value@.len() == old(self).spec_architecture(),
            is_binary(value@),
        ensures
            final(self).well_formed(),
            final(self).spec_registers() == old(self).spec_registers(),
            final(self).spec_architecture() == old(self).spec_architecture(),
            final(self)@ == old(self)@.update(
                address + old(self).spec_registers(),
                value@,
            ),
    {
        let ghost old_view = self@;
        let i = self.calculate_address(address);
        self.memory_pool.set(i, value);
        proof {
            assert(self@ =~= old_view.update(address + self.spec_registers(), value@));
        }
    }

    /// Encode a signed value into an `architecture`-wide word and place it
    /// into the pool at a given address.
    pub fn insert_value(&mut self, address: i64, value: i64)
        requires
            old(self).well_formed(),
            old(self).spec_in_range(address as int),
            value > i64::MIN,
        ensures
            final(self).well_formed(),
            final(self).spec_registers() == old(self).spec_registers(),
            final(self).spec_architecture() == old(self).spec_architecture(),
            final(self)@ == old(self)@.update(
                address + old(self).spec_registers(),
                spec_signed_int(value as int, old(self).spec_architecture() as int),
            ),
    {
        let word = signed_int(value, self.architecture as i64);
        self.insert_binary(address, word);
    }

    /// How many words the pool holds.
    pub fn pool_len(&self) -> (r: usize)
        ensures
            r == self@.len(),
    {
        self.memory_pool.len()
    }

    /// How many register cells sit at the front of the pool.
    pub fn registers(&self) -> (r: u64)
        ensures
            r == self.spec_registers(),
    {
        self.number_registers
    }

    /// The width of every word.
    pub fn architecture(&self) -> (r: u64)
        ensures
            r == self.spec_architecture(),
    {
        self.architecture
    }
}

/// Compute `2^bits` as a `u64`.
fn pow2_u64(bits: u64) -> (r: u64)
    requires
        bits <= 62,
    ensures
        r == pow2(bits as nat),
        r >= 1,
{
    proof {
        vstd::arithmetic::power2::lemma_pow2_pos(bits as nat);
        vstd::arithmetic::power2::lemma2_to64();
    }
    let mut r: u64 = 1;
    let mut i: u64 = 0;
    while i < bits
        invariant
            i <= bits <= 62,
            r == pow2(i as nat),
            1 <= r,
        decreases bits - i,
    {
        proof {
            vstd::arithmetic::power2::lemma_pow2_unfold((i + 1) as nat);
            crate::binarystring::lemma_pow2_le_61(i as nat);
        }
        r = r * 2;
        i = i + 1;
    }
    r
}

/// The triple the interpreter carries for one resolved operand: the
/// effective address, the word found there, and its signed value.
pub struct MemoryValue {
    pub address: i64,
    pub bits: Vec<char>,
    pub value: i64,
}

} // verus!
