//! Interned strings.
//!
//! An atom is an index into a table of strings that are all different, so that
//! two atoms of one table are equal exactly when their strings are.
use crate::data::Data;
use crate::directory::Directory;
use crate::text::tagged;
use vstd::prelude::*;
use vstd::string::*;

verus! {

/// An interned string: an index into an atom table.
#[derive(Clone, Copy, Debug, PartialEq, Eq, Structural, Hash)]
pub struct Atom(u32);

impl DeepView for Atom {
    type V = Atom;

    open spec fn deep_view(&self) -> Atom {
        *self
    }
}

impl Data for Atom {
    fn same(&self, other: &Self) -> (r: bool) {
        *self == *other
    }

    fn duplicate(&self) -> (r: Self) {
        *self
    }
}

/// How many strings a table can hold.
pub open spec fn capacity() -> nat {
    0x1_0000_0000
}

/// The table of all interned strings.
pub struct AtomTable {
    string_to_index: Directory<String, u32>,
    index_to_string: Vec<String>,
}

impl View for AtomTable {
    type V = Seq<Seq<char>>;

    closed spec fn view(&self) -> Seq<Seq<char>> {
        self.index_to_string.deep_view()
    }
}

impl AtomTable {
    /// Each string is in the table once, and the directory gives its place.
    pub closed spec fn well_formed(&self) -> bool {
        let places = self.string_to_index.deep_view();
        &&& self.string_to_index.well_formed()
        &&& self@.len() <= capacity()
        &&& forall|i: int|
            0 <= i < self@.len() ==> {
                &&& places.contains_key(#[trigger] self@[i])
                &&& places[self@[i]] == i
            }
        &&& forall|s: Seq<char>| #[trigger]
            places.contains_key(s) ==> places[s] < self@.len() && self@[places[s] as int] == s
    }

    /// Whether the atom comes from this table, or from one that this one grew out of.
    pub open spec fn knows(&self, atom: Atom) -> bool {
        atom.spec_index() < self@.len()
    }

    /// The string of an atom.
    pub open spec fn string(&self, atom: Atom) -> Seq<char> {
        self@[atom.spec_index() as int]
    }

    /// The atom of a string that is in the table.
    pub open spec fn atom(&self, s: Seq<char>) -> Atom {
        choose|atom: Atom| self.knows(atom) && self.string(atom) == s
    }

    /// Whether `n` more strings fit.
    pub open spec fn room_for(&self, n: nat) -> bool {
        self@.len() + n <= capacity()
    }

    /// No string is in the table twice.
    pub proof fn lemma_distinct(&self)
        requires
            self.well_formed(),
        ensures
            self@.no_duplicates(),
            self@.len() <= capacity(),
    {
        assert forall|i: int, j: int|
            0 <= i < self@.len() && 0 <= j < self@.len() && i != j implies self@[i] != self@[j] by {
            assert(self.string_to_index.deep_view()[self@[i]] == i);
            assert(self.string_to_index.deep_view()[self@[j]] == j);
        }
    }

    /// An empty table.
    pub fn new() -> (r: Self)
        ensures
            r.well_formed(),
            r@.len() == 0,
    {
        AtomTable { string_to_index: Directory::new(), index_to_string: Vec::new() }
    }

    /// Whether a string is in the table.
    pub fn contains(&self, s: &String) -> (r: bool)
        requires
            self.well_formed(),
        ensures
            r == self@.contains(s@),
    {
        let found = self.string_to_index.contains_key(s);
        proof {
            if found {
                assert(self@[self.string_to_index.deep_view()[s@] as int] == s@);
            }
            if self@.contains(s@) {
                let i = choose|i: int| 0 <= i < self@.len() && self@[i] == s@;
                assert(self.string_to_index.deep_view().contains_key(self@[i]));
            }
        }
        found
    }

    /// Whether `n` more strings fit.
    pub fn has_room(&self, n: usize) -> (r: bool)
        requires
            self.well_formed(),
        ensures
            r == self.room_for(n as nat),
    {
        let used: u128 = self.index_to_string.len() as u128;
        used + n as u128 <= 0x1_0000_0000u128
    }

    /// The atom of a string, which is added to the table if it is not there yet.
    pub fn intern(&mut self, s: &str) -> (r: Atom)
        requires
            old(self).well_formed(),
            old(self).room_for(1) || old(self)@.contains(s@),
        ensures
            final(self).well_formed(),
            final(self).knows(r),
            final(self).string(r) == s@,
            final(self)@ == (if old(self)@.contains(s@) {
                old(self)@
            } else {
                old(self)@.push(s@)
            }),
    {
        let key = s.to_owned();
        match self.string_to_index.get(&key) {
            Some(index) => Atom(*index),
            None => {
                let ghost before = self@;
                proof {
                    if before.contains(s@) {
                        let i = choose|i: int| 0 <= i < before.len() && before[i] == s@;
                        assert(self.string_to_index.deep_view().contains_key(before[i]));
                    }
                }
                let index: u32 = self.index_to_string.len() as u32;
                self.index_to_string.push(s.to_owned());
                self.string_to_index.insert(key, index);
                proof {
                    assert(self@ =~= before.push(s@));
                    let places = self.string_to_index.deep_view();
                    assert forall|i: int| 0 <= i < self@.len() implies {
                        &&& places.contains_key(#[trigger] self@[i])
                        &&& places[self@[i]] == i
                    } by {
                        if i < before.len() {
                            assert(self@[i] == before[i]);
                            assert(before.contains(before[i]));
                        }
                    }
                }
                Atom(index)
            },
        }
    }

    /// The string of an atom, if the atom is in the table.
    pub fn get(&self, atom: Atom) -> (r: Option<String>)
        ensures
            match r {
                Some(s) => self.knows(atom) && s@ == self.string(atom),
                None => !self.knows(atom),
            },
    {
        let index: usize = atom.0 as usize;
        if index < self.index_to_string.len() {
            Some(self.index_to_string[index].clone())
        } else {
            None
        }
    }
}

impl Atom {
    /// The index of the atom.
    pub closed spec fn spec_index(self) -> u32 {
        self.0
    }

    /// Atoms with the same index are the same.
    pub proof fn lemma_same_index(a: Atom, b: Atom)
        requires
            a.spec_index() == b.spec_index(),
        ensures
            a == b,
    {
    }

    /// The atom of a string: the one that the string was interned as before,
    /// or a new one.
    pub fn new(atoms: &mut AtomTable, s: &str) -> (r: Self)
        requires
            old(atoms).well_formed(),
            old(atoms).room_for(1) || old(atoms)@.contains(s@),
        ensures
            final(atoms).well_formed(),
            final(atoms).knows(r),
            final(atoms).string(r) == s@,
            final(atoms)@ == (if old(atoms)@.contains(s@) {
                old(atoms)@
            } else {
                old(atoms)@.push(s@)
            }),
    {
        atoms.intern(s)
    }

    /// The string of the atom.
    pub fn as_str(&self, atoms: &AtomTable) -> (r: String)
        requires
            atoms.knows(*self),
        ensures
            r@ == atoms.string(*self),
    {
        atoms.index_to_string[self.0 as usize].clone()
    }

    /// The index of the atom.
    pub fn index(&self) -> (r: u32)
        ensures
            r == self.spec_index(),
    {
        self.0
    }

    /// The atom as text: its string.
    pub fn display(&self, atoms: &AtomTable) -> (r: String)
        requires
            atoms.knows(*self),
        ensures
            r@ == atoms.string(*self),
    {
        self.as_str(atoms)
    }

    /// The atom for a debug print: its quoted string, marked as an atom.
    pub fn debug(&self, atoms: &AtomTable) -> (r: String)
        requires
            atoms.knows(*self),
        ensures
            r@ == crate::text::tagged_text("Atom"@, crate::text::quoted(atoms.string(*self))),
    {
        let s = self.as_str(atoms);
        tagged("Atom", crate::text::quote(s.as_str()).as_str())
    }
}

/// Two atoms of one table are equal exactly when their strings are.
pub proof fn atoms_equal_iff_strings_equal(atoms: AtomTable, a: Atom, b: Atom)
    requires
        atoms.well_formed(),
        atoms.knows(a),
        atoms.knows(b),
    ensures
        a == b <==> atoms.string(a) == atoms.string(b),
{
    atoms.lemma_distinct();
    if atoms.string(a) == atoms.string(b) {
        assert(a.spec_index() == b.spec_index());
    }
}

/// Whether a table holds what another one held, and perhaps more behind it.
pub open spec fn grown(before: AtomTable, after: AtomTable) -> bool {
    &&& before@.len() <= after@.len()
    &&& forall|i: int| 0 <= i < before@.len() ==> #[trigger] before@[i] == after@[i]
}

/// Interning leaves every atom that the table knew with the string it had.
pub proof fn interning_keeps_atoms(before: AtomTable, after: AtomTable, s: Seq<char>, atom: Atom)
    requires
        before.knows(atom),
        after@ == (if before@.contains(s) {
            before@
        } else {
            before@.push(s)
        }),
    ensures
        after.knows(atom),
        after.string(atom) == before.string(atom),
{
}

} // verus!
