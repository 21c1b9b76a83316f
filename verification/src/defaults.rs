//! System-wide defaults: bound wrapping, canonical casing, configuration
//! keys and their minimum values, and the symbol kinds.

use vstd::prelude::*;
use vstd::string::StrSliceExecFns;
use vstd::arithmetic::div_mod::{
    lemma_fundamental_div_mod, lemma_fundamental_div_mod_converse, lemma_mod_bound,
    lemma_small_mod,
};

verus! {

/// The key of a configuration option.
#[derive(Clone, Copy, PartialEq, Eq, Structural, Debug)]
pub enum ConfigKeys {
    Memory,
    Registers,
    Clock,
}

/// The minimum value the `MEMORY` option accepts.
pub const MEMORY_MINIMUM: u64 = 100;

/// The minimum value the `REGISTERS` option accepts.
pub const REGISTERS_MINIMUM: u64 = 3;

/// The minimum value the `CLOCK` option accepts.
pub const CLOCK_MINIMUM: u64 = 0;

/// The minimum value a configuration option accepts.
pub fn config_minimum(key: ConfigKeys) -> (r: u64)
    ensures
        r == spec_config_minimum(key),
{
    match key {
        ConfigKeys::Memory => MEMORY_MINIMUM,
        ConfigKeys::Registers => REGISTERS_MINIMUM,
        ConfigKeys::Clock => CLOCK_MINIMUM,
    }
}

/// The minimum value a configuration option accepts.
pub open spec fn spec_config_minimum(key: ConfigKeys) -> u64 {
    match key {
        ConfigKeys::Memory => MEMORY_MINIMUM,
        ConfigKeys::Registers => REGISTERS_MINIMUM,
        ConfigKeys::Clock => CLOCK_MINIMUM,
    }
}

/// The configuration mapping the whole pipeline reads: the memory size,
/// the number of general-purpose registers, and the clock pause.
#[derive(Clone, Copy, PartialEq, Eq, Structural, Debug)]
pub struct ConfigTable {
    pub memory: u64,
    pub registers: u64,
    pub clock: u64,
}

impl ConfigTable {
    /// The default configuration: each option at its minimum.
    pub fn new() -> (r: ConfigTable)
        ensures
            r.memory == MEMORY_MINIMUM,
            r.registers == REGISTERS_MINIMUM,
            r.clock == CLOCK_MINIMUM,
            spec_config_valid(r),
    {
        ConfigTable { memory: MEMORY_MINIMUM, registers: REGISTERS_MINIMUM, clock: CLOCK_MINIMUM }
    }

    /// Read one option by key.
    pub fn get(&self, key: ConfigKeys) -> (r: u64)
        ensures
            r == self.spec_get(key),
    {
        match key {
            ConfigKeys::Memory => self.memory,
            ConfigKeys::Registers => self.registers,
            ConfigKeys::Clock => self.clock,
        }
    }

    /// Read one option by key.
    pub open spec fn spec_get(&self, key: ConfigKeys) -> u64 {
        match key {
            ConfigKeys::Memory => self.memory,
            ConfigKeys::Registers => self.registers,
            ConfigKeys::Clock => self.clock,
        }
    }

    /// Write one option by key.
    pub fn set(&mut self, key: ConfigKeys, value: u64)
        ensures
            final(self).spec_get(key) == value,
            forall|other: ConfigKeys| other != key ==> final(self).spec_get(other) == old(
                self,
            ).spec_get(other),
    {
        match key {
            ConfigKeys::Memory => {
                self.memory = value;
            },
            ConfigKeys::Registers => {
                self.registers = value;
            },
            ConfigKeys::Clock => {
                self.clock = value;
            },
        }
    }
}

/// The Euclidean remainder of `a` by `m`: always in `[0, m)`.
pub fn rem_euclid_i64(a: i64, m: i64) -> (r: i64)
    requires
        m >= 1,
    ensures
        r == (a as int) % (m as int),
        0 <= r < m,
{
    proof {
        lemma_mod_bound(a as int, m as int);
    }
    if a >= 0 {
        a % m
    } else {
        let y = -(a + 1);
        let k = y % m;
        proof {
            lemma_mod_bound(y as int, m as int);
            lemma_rem_euclid_negative(y as int, m as int);
        }
        m - 1 - k
    }
}

proof fn lemma_rem_euclid_negative(y: int, m: int)
    requires
        y >= 0,
        m > 0,
    ensures
        (-y - 1) % m == m - 1 - (y % m),
{
    let q = y / m;
    let s = y % m;
    lemma_fundamental_div_mod(y, m);
    lemma_mod_bound(y, m);
    assert(-y - 1 == (-q - 1) * m + (m - s - 1)) by (nonlinear_arith)
        requires
            y == q * m + s,
    ;
    lemma_fundamental_div_mod_converse(-y - 1, m, -q - 1, m - s - 1);
}

/// What `wrap_bound` returns: `lower + (value - lower) mod (upper + 1 - lower)`
/// with the mathematical modulo.
pub open spec fn spec_wrap_bound(lower: int, upper: int, value: int) -> int {
    lower + (value - lower) % (upper + 1 - lower)
}

/// Wrap a value into the inclusive range `[lower, upper]`.  The result is
/// always inside the range, and a value already inside it is unchanged.
pub fn wrap_bound(lower: i64, upper: i64, value: i64) -> (r: i64)
    requires
        lower <= upper,
        upper - lower < i64::MAX,
        i64::MIN <= value - lower <= i64::MAX,
    ensures
        r == spec_wrap_bound(lower as int, upper as int, value as int),
        lower <= r <= upper,
        lower <= value <= upper ==> r == value,
{
    let m = upper - lower + 1;
    let d = value - lower;
    let k = rem_euclid_i64(d, m);
    proof {
        if lower <= value <= upper {
            lemma_small_mod((value - lower) as nat, m as nat);
        }
    }
    lower + k
}

/// A character mapped to upper case; only ASCII letters change.
pub open spec fn spec_upper_char(c: char) -> char {
    if 'a' <= c && c <= 'z' {
        ((c as u32) - 32) as char
    } else {
        c
    }
}

/// A string mapped to upper case, character by character.
pub open spec fn spec_default_casing(s: Seq<char>) -> Seq<char> {
    Seq::new(s.len(), |i: int| spec_upper_char(s[i]))
}

/// Map one character to upper case; only ASCII letters change.
pub fn upper_char(c: char) -> (r: char)
    ensures
        r == spec_upper_char(c),
{
    if 'a' <= c && c <= 'z' {
        (((c as u32) - 32) as u8) as char
    } else {
        c
    }
}

/// Apply the canonical casing to a string: every ASCII letter
/// upper-cased.  Casing is deliberately ASCII-only so that it stays a
/// verified character map; letters outside ASCII pass through unchanged
/// and, where one would start a label, fail the label character check
/// instead.
pub fn default_casing(uncased_string: &Vec<char>) -> (r: Vec<char>)
    ensures
        r@ == spec_default_casing(uncased_string@),
{
    let mut r: Vec<char> = Vec::new();
    let mut i: usize = 0;
    while i < uncased_string.len()
        invariant
            i <= uncased_string@.len(),
            r@ =~= spec_default_casing(uncased_string@).take(i as int),
        decreases uncased_string@.len() - i,
    {
        r.push(upper_char(uncased_string[i]));
        assert(r@ =~= spec_default_casing(uncased_string@).take(i + 1));
        i = i + 1;
    }
    assert(r@ =~= spec_default_casing(uncased_string@));
    r
}

/// A configuration every option of which sits at or above its minimum.
pub open spec fn spec_config_valid(t: ConfigTable) -> bool {
    &&& t.memory >= MEMORY_MINIMUM
    &&& t.registers >= REGISTERS_MINIMUM
    &&& t.clock >= CLOCK_MINIMUM
}

/// Whether a character vector spells exactly the given word.
pub fn is_word(value: &Vec<char>, word: &str) -> (r: bool)
    ensures
        r == (value@ == word@),
{
    let n = word.unicode_len();
    if value.len() != n {
        proof {
            assert(value@.len() != word@.len());
        }
        return false;
    }
    let mut i: usize = 0;
    while i < n
        invariant
            i <= n,
            n == word@.len(),
            value@.len() == n,
            forall|j: int| 0 <= j < i ==> value@[j] == word@[j],
        decreases n - i,
    {
        if value[i] != word.get_char(i) {
            return false;
        }
        i = i + 1;
    }
    proof {
        assert(value@ =~= word@);
    }
    true
}

/// The kinds a declared symbol can have.
#[derive(Clone, Copy, PartialEq, Eq, Structural, Debug)]
pub enum SymbolTypes {
    Branch,
    Variable,
    Procedure,
}

/// The character that introduces a configuration directive.
pub const DIRECTIVE_PREFIX: char = '!';

/// The character that introduces a comment.
pub const COMMENT_PREFIX: char = ';';

/// The character separating an option name from its value.
pub const DELIMITER: char = '=';

/// The initial value of a variable declared without one.
pub const VARIABLE_VALUE: i64 = 0;

} // verus!
