//! The catalog: an alias table and a palette table, checked once when the
//! catalog is built and read-only afterwards.

use vstd::prelude::*;
use vstd::string::*;

verus! {

/// One sample of a palette: red, green and blue, each the bit pattern of a
/// double.
pub type Sample = [u64; 3];

/// Whether no name occurs twice.
pub open spec fn distinct(names: Seq<Seq<char>>) -> bool {
    forall|i: int, j: int| 0 <= i < j < names.len() ==> names[i] != names[j]
}

/// The names under which the entries of a table are filed, in table order.
pub open spec fn keys<V>(entries: Seq<(Seq<char>, V)>) -> Seq<Seq<char>> {
    Seq::new(entries.len(), |i: int| entries[i].0)
}

/// Whether a table has an entry under `name`.
pub open spec fn has_entry<V>(entries: Seq<(Seq<char>, V)>, name: Seq<char>) -> bool {
    exists|i: int| 0 <= i < entries.len() && (#[trigger] entries[i]).0 == name
}

/// A position at which `name` stands in a table that has an entry under it.
pub open spec fn position<V>(entries: Seq<(Seq<char>, V)>, name: Seq<char>) -> int {
    choose|i: int| 0 <= i < entries.len() && (#[trigger] entries[i]).0 == name
}

/// What a table holds under `name`.
pub open spec fn find<V>(entries: Seq<(Seq<char>, V)>, name: Seq<char>) -> Option<V> {
    if has_entry(entries, name) {
        Some(entries[position(entries, name)].1)
    } else {
        None
    }
}

/// The mathematical content of a catalog: the alias table, from alias to
/// canonical key, and the palette table, from canonical key to palette.
pub struct CatalogView {
    pub aliases: Seq<(Seq<char>, Seq<char>)>,
    pub palettes: Seq<(Seq<char>, Seq<Sample>)>,
}

/// The first reason for which two tables make no catalog.
#[derive(Debug, Clone, Copy, PartialEq, Eq, Structural)]
pub enum CatalogError {
    /// Two entries of the alias table have the same alias.
    DuplicateAlias,
    /// Two entries of the palette table have the same key.
    DuplicateKey,
    /// A palette has no samples.
    EmptyPalette,
    /// An alias names a key that the palette table does not have.
    DanglingAlias,
}

impl CatalogView {
    /// Whether some palette has no samples.
    pub open spec fn has_empty_palette(self) -> bool {
        exists|i: int| 0 <= i < self.palettes.len() && (#[trigger] self.palettes[i]).1.len() == 0
    }

    /// Whether some alias names a key without a palette.
    pub open spec fn has_dangling_alias(self) -> bool {
        exists|i: int|
            0 <= i < self.aliases.len() && !has_entry(self.palettes, (#[trigger] self.aliases[i]).1)
    }

    /// What is wrong with the tables, if anything; the checks are made in the
    /// order of the variants of `CatalogError`.
    pub open spec fn defect(self) -> Option<CatalogError> {
        if !distinct(keys(self.aliases)) {
            Some(CatalogError::DuplicateAlias)
        } else if !distinct(keys(self.palettes)) {
            Some(CatalogError::DuplicateKey)
        } else if self.has_empty_palette() {
            Some(CatalogError::EmptyPalette)
        } else if self.has_dangling_alias() {
            Some(CatalogError::DanglingAlias)
        } else {
            None
        }
    }

    /// The invariant of a catalog: both tables are maps, every palette has a
    /// sample, and every alias leads to a palette. How an alias is written
    /// is no part of it. A search by name looks up a name in lower case and
    /// without its reversal suffix, so an alias that is not in lower case,
    /// or that ends in `_r`, is never found; such an alias is no defect of
    /// the tables, it is only out of reach.
    pub open spec fn wf(self) -> bool {
        self.defect() is None
    }

    /// The palette that a name leads to: the name is looked up as an alias,
    /// and the key found there in the palette table.
    pub open spec fn lookup(self, name: Seq<char>) -> Option<Seq<Sample>> {
        match find(self.aliases, name) {
            Some(key) => find(self.palettes, key),
            None => None,
        }
    }

    /// Every name of the catalog: the aliases, then the canonical keys.
    pub open spec fn names(self) -> Seq<Seq<char>> {
        keys(self.aliases) + keys(self.palettes)
    }
}

/// The alias table that a vector of pairs stands for.
pub open spec fn alias_entries(table: Seq<(String, String)>) -> Seq<(Seq<char>, Seq<char>)> {
    Seq::new(table.len(), |i: int| (table[i].0@, table[i].1@))
}

/// The palette table that a vector of pairs stands for.
pub open spec fn palette_entries(table: Seq<(String, Vec<Sample>)>) -> Seq<(Seq<char>, Seq<Sample>)> {
    Seq::new(table.len(), |i: int| (table[i].0@, table[i].1@))
}

/// A catalog of palettes: read-only once built. Each table is a map, kept
/// as a vector of pairs in which no name stands twice.
pub struct Catalog {
    aliases: Vec<(String, String)>,
    palettes: Vec<(String, Vec<Sample>)>,
}

impl View for Catalog {
    type V = CatalogView;

    closed spec fn view(&self) -> CatalogView {
        CatalogView {
            aliases: alias_entries(self.aliases@),
            palettes: palette_entries(self.palettes@),
        }
    }
}

/// In a table without repeated names, the entry under a name is the one at
/// any position where the name stands.
pub proof fn lemma_find_at<V>(entries: Seq<(Seq<char>, V)>, i: int)
    requires
        distinct(keys(entries)),
        0 <= i < entries.len(),
    ensures
        find(entries, entries[i].0) == Some(entries[i].1),
{
    let name = entries[i].0;
    assert(has_entry(entries, name));
    let j = position(entries, name);
    if i < j {
        assert(keys(entries)[i] != keys(entries)[j]);
    } else if j < i {
        assert(keys(entries)[j] != keys(entries)[i]);
    }
}

/// The names under which a vector of pairs files its entries.
pub open spec fn filed<V>(table: Seq<(String, V)>) -> Seq<Seq<char>> {
    Seq::new(table.len(), |i: int| table[i].0@)
}

/// Where `name` stands in a table, if anywhere.
fn find_position<V>(table: &Vec<(String, V)>, name: &String) -> (at: Option<usize>)
    ensures
        match at {
            Some(i) => i < table.len() && filed(table@)[i as int] == name@,
            None => !filed(table@).contains(name@),
        },
{
    let mut i: usize = 0;
    while i < table.len()
        invariant
            i <= table.len(),
            forall|j: int| 0 <= j < i ==> filed(table@)[j] != name@,
        decreases table.len() - i,
    {
        if table[i].0 == *name {
            return Some(i);
        }
        i += 1;
    }
    None
}

/// Whether no name occurs twice in a table.
fn names_distinct<V>(table: &Vec<(String, V)>) -> (ok: bool)
    ensures
        ok == distinct(filed(table@)),
{
    let ghost names = filed(table@);
    let mut i: usize = 0;
    while i < table.len()
        invariant
            i <= table.len(),
            names == filed(table@),
            forall|a: int, b: int| 0 <= a < b < i ==> names[a] != names[b],
        decreases table.len() - i,
    {
        let mut j: usize = 0;
        while j < i
            invariant
                j <= i < table.len(),
                names == filed(table@),
                forall|a: int| 0 <= a < j ==> names[a] != names[i as int],
            decreases i - j,
        {
            if table[j].0 == table[i].0 {
                assert(names[j as int] == names[i as int]);
                return false;
            }
            j += 1;
        }
        i += 1;
    }
    true
}

/// The names of a table are the same whether it is read as a vector of
/// pairs or as the table that the vector stands for.
proof fn lemma_filed_keys(aliases: Seq<(String, String)>, palettes: Seq<(String, Vec<Sample>)>)
    ensures
        keys(alias_entries(aliases)) == filed(aliases),
        keys(palette_entries(palettes)) == filed(palettes),
        forall|name: Seq<char>|
            has_entry(palette_entries(palettes), name) <==> filed(palettes).contains(name),
        forall|name: Seq<char>|
            has_entry(alias_entries(aliases), name) <==> filed(aliases).contains(name),
{
    assert(keys(alias_entries(aliases)) =~= filed(aliases));
    assert(keys(palette_entries(palettes)) =~= filed(palettes));
    assert forall|name: Seq<char>|
        has_entry(palette_entries(palettes), name) <==> filed(palettes).contains(name) by {
        if has_entry(palette_entries(palettes), name) {
            let i = position(palette_entries(palettes), name);
            assert(filed(palettes)[i] == name);
        }
        if filed(palettes).contains(name) {
            let i = choose|i: int| 0 <= i < filed(palettes).len() && filed(palettes)[i] == name;
            assert(palette_entries(palettes)[i].0 == name);
        }
    }
    assert forall|name: Seq<char>|
        has_entry(alias_entries(aliases), name) <==> filed(aliases).contains(name) by {
        if has_entry(alias_entries(aliases), name) {
            let i = position(alias_entries(aliases), name);
            assert(filed(aliases)[i] == name);
        }
        if filed(aliases).contains(name) {
            let i = choose|i: int| 0 <= i < filed(aliases).len() && filed(aliases)[i] == name;
            assert(alias_entries(aliases)[i].0 == name);
        }
    }
}

/// Whether some palette of the table has no samples.
fn any_palette_empty(table: &Vec<(String, Vec<Sample>)>) -> (found: bool)
    ensures
        found == (exists|i: int|
            0 <= i < table.len() && (#[trigger] palette_entries(table@)[i]).1.len() == 0),
{
    let mut i: usize = 0;
    while i < table.len()
        invariant
            i <= table.len(),
            forall|j: int| 0 <= j < i ==> (#[trigger] palette_entries(table@)[j]).1.len() != 0,
        decreases table.len() - i,
    {
        if table[i].1.len() == 0 {
            assert(palette_entries(table@)[i as int].1.len() == 0);
            return true;
        }
        i += 1;
    }
    false
}

/// Whether some alias of the first table names a key that the second lacks.
fn any_alias_dangling(aliases: &Vec<(String, String)>, palettes: &Vec<(String, Vec<Sample>)>) -> (found:
    bool)
    ensures
        found == (exists|i: int|
            0 <= i < aliases.len() && !has_entry(
                palette_entries(palettes@),
                (#[trigger] alias_entries(aliases@)[i]).1,
            )),
{
    proof {
        lemma_filed_keys(aliases@, palettes@);
    }
    let mut i: usize = 0;
    while i < aliases.len()
        invariant
            i <= aliases.len(),
            forall|name: Seq<char>|
                has_entry(palette_entries(palettes@), name) <==> filed(palettes@).contains(name),
            forall|j: int|
                0 <= j < i ==> has_entry(
                    palette_entries(palettes@),
                    (#[trigger] alias_entries(aliases@)[j]).1,
                ),
        decreases aliases.len() - i,
    {
        if find_position(palettes, &aliases[i].1).is_none() {
            assert(alias_entries(aliases@)[i as int].1 == aliases[i as int].1@);
            return true;
        }
        assert(alias_entries(aliases@)[i as int].1 == aliases[i as int].1@);
        i += 1;
    }
    false
}

impl Catalog {
    #[verifier::type_invariant]
    spec fn inv(self) -> bool {
        self@.wf()
    }

    /// Builds a catalog from an alias table (alias, canonical key) and a
    /// palette table (canonical key, samples), or says what is wrong with
    /// them. Names are taken as they are written and compared exactly. An
    /// alias should be in lower case and should not end in `_r`, since names
    /// are searched for in that form; one that is written otherwise is
    /// accepted, and no search by name finds it. The same holds of a
    /// canonical key that no alias names. Channels are accepted whatever
    /// their pattern.
    pub fn new(aliases: Vec<(String, String)>, palettes: Vec<(String, Vec<Sample>)>) -> (made: Result<
        Catalog,
        CatalogError,
    >)
        ensures
            ({
                let tables = CatalogView {
                    aliases: alias_entries(aliases@),
                    palettes: palette_entries(palettes@),
                };
                match made {
                    Ok(catalog) => tables.wf() && catalog@ == tables,
                    Err(e) => tables.defect() == Some(e),
                }
            }),
    {
        proof {
            lemma_filed_keys(aliases@, palettes@);
        }
        if !names_distinct(&aliases) {
            return Err(CatalogError::DuplicateAlias);
        }
        if !names_distinct(&palettes) {
            return Err(CatalogError::DuplicateKey);
        }
        if any_palette_empty(&palettes) {
            return Err(CatalogError::EmptyPalette);
        }
        if any_alias_dangling(&aliases, &palettes) {
            return Err(CatalogError::DanglingAlias);
        }
        Ok(Catalog { aliases, palettes })
    }

    /// The palette that a name leads to, if the name is an alias.
    pub fn lookup(&self, name: &str) -> (found: Option<&Vec<Sample>>)
        ensures
            self@.wf(),
            match found {
                Some(palette) => self@.lookup(name@) == Some(palette@) && palette@.len() > 0,
                None => self@.lookup(name@) is None && find(self@.aliases, name@) is None,
            },
    {
        proof {
            use_type_invariant(self);
            lemma_filed_keys(self.aliases@, self.palettes@);
        }
        let name = name.to_owned();
        match find_position(&self.aliases, &name) {
            None => None,
            Some(i) => {
                proof {
                    lemma_find_at(self@.aliases, i as int);
                }
                match find_position(&self.palettes, &self.aliases[i].1) {
                    Some(j) => {
                        proof {
                            lemma_find_at(self@.palettes, j as int);
                            assert(self@.palettes[j as int].1.len() != 0);
                        }
                        Some(&self.palettes[j].1)
                    },
                    None => {
                        proof {
                            assert(has_entry(self@.palettes, self@.aliases[i as int].1));
                        }
                        None
                    },
                }
            },
        }
    }

    /// Every name of the catalog: the aliases, then the canonical keys.
    pub fn names(&self) -> (all: Vec<String>)
        ensures
            self@.wf(),
            all@.len() == self@.names().len(),
            forall|i: int| 0 <= i < all@.len() ==> (#[trigger] all@[i])@ == self@.names()[i],
    {
        proof {
            use_type_invariant(self);
        }
        let mut all: Vec<String> = Vec::new();
        let mut i: usize = 0;
        while i < self.aliases.len()
            invariant
                i <= self.aliases.len(),
                all@.len() == i,
                forall|j: int| 0 <= j < i ==> (#[trigger] all@[j])@ == self@.aliases[j].0,
            decreases self.aliases.len() - i,
        {
            all.push(self.aliases[i].0.clone());
            i += 1;
        }
        let mut k: usize = 0;
        while k < self.palettes.len()
            invariant
                k <= self.palettes.len(),
                all@.len() == self.aliases.len() + k,
                forall|j: int|
                    0 <= j < self.aliases.len() ==> (#[trigger] all@[j])@ == self@.aliases[j].0,
                forall|j: int|
                    0 <= j < k ==> (#[trigger] all@[self.aliases.len() + j])@
                        == self@.palettes[j].0,
            decreases self.palettes.len() - k,
        {
            all.push(self.palettes[k].0.clone());
            k += 1;
        }
        assert forall|i: int| 0 <= i < all@.len() implies (#[trigger] all@[i])@
            == self@.names()[i] by {
            if i >= self.aliases.len() {
                assert(all@[self.aliases.len() + (i - self.aliases.len())]@
                    == self@.palettes[i - self.aliases.len()].0);
            }
        }
        all
    }
}

} // verus!
