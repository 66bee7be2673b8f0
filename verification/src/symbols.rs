//! Symbol Table: a mapping from symbolic names to resolved addresses,
//! pre-seeded with the architecture-reserved aliases. Binding is idempotent:
//! once a name holds an address, later binds leave it unchanged.

use vstd::prelude::*;

use crate::text::str_eq;

verus! {

/// Name-to-address mapping, extended with labels and variables during the
/// two resolution passes.
pub struct SymbolTable {
    entries: Vec<(String, u16)>,
}

/// The mapping an entry list denotes: the first entry for a name wins.
pub closed spec fn entry_model(entries: Seq<(String, u16)>) -> Map<Seq<char>, u16>
    decreases entries.len(),
{
    if entries.len() == 0 {
        Map::empty()
    } else {
        entry_model(entries.drop_first()).insert(entries[0].0@, entries[0].1)
    }
}

impl View for SymbolTable {
    type V = Map<Seq<char>, u16>;

    closed spec fn view(&self) -> Map<Seq<char>, u16> {
        entry_model(self.entries@)
    }
}

/// An entry whose name does not occur earlier in the list gives the name's
/// binding.
proof fn lemma_model_first_match(entries: Seq<(String, u16)>, i: int)
    requires
        0 <= i < entries.len(),
        forall|j: int| 0 <= j < i ==> entries[j].0@ != entries[i].0@,
    ensures
        entry_model(entries).contains_key(entries[i].0@),
        entry_model(entries)[entries[i].0@] == entries[i].1,
    decreases entries.len(),
{
    if i > 0 {
        lemma_model_first_match(entries.drop_first(), i - 1);
    }
}

/// A name that occurs in no entry is unbound.
proof fn lemma_model_no_match(entries: Seq<(String, u16)>, k: Seq<char>)
    requires
        forall|j: int| 0 <= j < entries.len() ==> entries[j].0@ != k,
    ensures
        !entry_model(entries).contains_key(k),
    decreases entries.len(),
{
    if entries.len() > 0 {
        lemma_model_no_match(entries.drop_first(), k);
    }
}

/// Appending an entry binds its name only when the name was still free.
proof fn lemma_model_push(entries: Seq<(String, u16)>, x: (String, u16))
    ensures
        entry_model(entries.push(x)) == if entry_model(entries).contains_key(x.0@) {
            entry_model(entries)
        } else {
            entry_model(entries).insert(x.0@, x.1)
        },
    decreases entries.len(),
{
    if entries.len() == 0 {
        assert(entries.push(x).drop_first() =~= entries);
        assert(entry_model(entries.push(x)) =~= entry_model(entries).insert(x.0@, x.1));
    } else {
        lemma_model_push(entries.drop_first(), x);
        assert(entries.push(x).drop_first() =~= entries.drop_first().push(x));
        let m = entry_model(entries.drop_first());
        if m.contains_key(x.0@) {
        } else if entries[0].0@ == x.0@ {
            assert(entry_model(entries.push(x)) =~= entry_model(entries));
        } else {
            assert(entry_model(entries.push(x)) =~= entry_model(entries).insert(x.0@, x.1));
        }
    }
}

/// The architecture-reserved aliases: the four pointer aliases and the
/// numbered registers share the low register range, and the two
/// memory-mapped device bases sit at fixed high offsets.
pub open spec fn reserved_map() -> Map<Seq<char>, u16> {
    Map::empty()
        .insert("SP"@, 0)
        .insert("LCL"@, 1)
        .insert("ARG"@, 2)
        .insert("THIS"@, 3)
        .insert("THAT"@, 4)
        .insert("R0"@, 0)
        .insert("R1"@, 1)
        .insert("R2"@, 2)
        .insert("R3"@, 3)
        .insert("R4"@, 4)
        .insert("R5"@, 5)
        .insert("R6"@, 6)
        .insert("R7"@, 7)
        .insert("R8"@, 8)
        .insert("R9"@, 9)
        .insert("R10"@, 10)
        .insert("R11"@, 11)
        .insert("R12"@, 12)
        .insert("R13"@, 13)
        .insert("R14"@, 14)
        .insert("R15"@, 15)
        .insert("SCREEN"@, 16384)
        .insert("KBD"@, 24576)
}

/// A table holding exactly the architecture-reserved aliases.
#[verifier::rlimit(50)]
pub fn reserved_table() -> (t: SymbolTable)
    ensures
        t@ == reserved_map(),
{
    proof {
        reveal_strlit("SP");
        reveal_strlit("LCL");
        reveal_strlit("ARG");
        reveal_strlit("THIS");
        reveal_strlit("THAT");
        reveal_strlit("R0");
        reveal_strlit("R1");
        reveal_strlit("R2");
        reveal_strlit("R3");
        reveal_strlit("R4");
        reveal_strlit("R5");
        reveal_strlit("R6");
        reveal_strlit("R7");
        reveal_strlit("R8");
        reveal_strlit("R9");
        reveal_strlit("R10");
        reveal_strlit("R11");
        reveal_strlit("R12");
        reveal_strlit("R13");
        reveal_strlit("R14");
        reveal_strlit("R15");
        reveal_strlit("SCREEN");
        reveal_strlit("KBD");
        assert("SP"@ =~= seq!['S', 'P']);
        assert("LCL"@ =~= seq!['L', 'C', 'L']);
        assert("ARG"@ =~= seq!['A', 'R', 'G']);
        assert("THIS"@ =~= seq!['T', 'H', 'I', 'S']);
        assert("THAT"@ =~= seq!['T', 'H', 'A', 'T']);
        assert("R0"@ =~= seq!['R', '0']);
        assert("R1"@ =~= seq!['R', '1']);
        assert("R2"@ =~= seq!['R', '2']);
        assert("R3"@ =~= seq!['R', '3']);
        assert("R4"@ =~= seq!['R', '4']);
        assert("R5"@ =~= seq!['R', '5']);
        assert("R6"@ =~= seq!['R', '6']);
        assert("R7"@ =~= seq!['R', '7']);
        assert("R8"@ =~= seq!['R', '8']);
        assert("R9"@ =~= seq!['R', '9']);
        assert("R10"@ =~= seq!['R', '1', '0']);
        assert("R11"@ =~= seq!['R', '1', '1']);
        assert("R12"@ =~= seq!['R', '1', '2']);
        assert("R13"@ =~= seq!['R', '1', '3']);
        assert("R14"@ =~= seq!['R', '1', '4']);
        assert("R15"@ =~= seq!['R', '1', '5']);
        assert("SCREEN"@ =~= seq!['S', 'C', 'R', 'E', 'E', 'N']);
        assert("KBD"@ =~= seq!['K', 'B', 'D']);
    }
    let mut t = SymbolTable::new();
    t.bind("SP", 0);
    t.bind("LCL", 1);
    t.bind("ARG", 2);
    t.bind("THIS", 3);
    t.bind("THAT", 4);
    t.bind("R0", 0);
    t.bind("R1", 1);
    t.bind("R2", 2);
    t.bind("R3", 3);
    t.bind("R4", 4);
    t.bind("R5", 5);
    t.bind("R6", 6);
    t.bind("R7", 7);
    t.bind("R8", 8);
    t.bind("R9", 9);
    t.bind("R10", 10);
    t.bind("R11", 11);
    t.bind("R12", 12);
    t.bind("R13", 13);
    t.bind("R14", 14);
    t.bind("R15", 15);
    t.bind("SCREEN", 16384);
    t.bind("KBD", 24576);
    proof {
        assert(t@ =~= reserved_map());
    }
    t
}

impl SymbolTable {
    /// An empty table.
    pub fn new() -> (t: SymbolTable)
        ensures
            t@ == Map::<Seq<char>, u16>::empty(),
    {
        SymbolTable { entries: Vec::new() }
    }

    /// The address a name is bound to, if any.
    pub fn lookup(&self, name: &str) -> (r: Option<u16>)
        ensures
            r == if self@.contains_key(name@) {
                Some(self@[name@])
            } else {
                None::<u16>
            },
    {
        let n = self.entries.len();
        let mut i: usize = 0;
        while i < n
            invariant
                i <= n,
                n == self.entries.len(),
                forall|j: int| 0 <= j < i ==> self.entries@[j].0@ != name@,
            decreases n - i,
        {
            let e = &self.entries[i];
            if str_eq(e.0.as_str(), name) {
                proof {
                    lemma_model_first_match(self.entries@, i as int);
                }
                return Some(e.1);
            }
            i = i + 1;
        }
        proof {
            lemma_model_no_match(self.entries@, name@);
        }
        None
    }

    /// Whether a name is bound.
    pub fn contains(&self, name: &str) -> (b: bool)
        ensures
            b == self@.contains_key(name@),
    {
        self.lookup(name).is_some()
    }

    /// Binds a name to an address; a name already bound keeps its address.
    pub fn bind(&mut self, name: &str, addr: u16)
        ensures
            final(self)@ == if old(self)@.contains_key(name@) {
                old(self)@
            } else {
                old(self)@.insert(name@, addr)
            },
    {
        let owned = name.to_owned();
        proof {
            lemma_model_push(self.entries@, (owned, addr));
        }
        self.entries.push((owned, addr));
    }
}

} // verus!
