//! What holds of resolution by name and of the names of a catalog, for every
//! catalog, every name, and whatever becomes of the ramp that stands in for
//! a name that the catalog does not know.

use crate::catalog::{find, has_entry, keys, position, CatalogView, Sample};
use crate::colormap::{oriented, resolution};
use crate::name::{base_name, is_reversed, lowercase, plain, reversal_suffix};
use vstd::prelude::*;

verus! {

/// What asking for `name` gives, as `ColorMap::from_str` computes it, where
/// `ramp` is what became of the ramp from black to the color that the name
/// was read as.
pub open spec fn resolved(catalog: CatalogView, name: Seq<char>, ramp: Option<Seq<[u32; 3]>>) -> Result<
    Seq<Sample>,
    Seq<char>,
> {
    resolution(catalog, name, lowercase(name), ramp)
}

/// In a catalog, every alias leads to a palette, and that palette has a
/// sample.
pub proof fn lemma_alias_leads_to_palette(catalog: CatalogView, alias: Seq<char>)
    requires
        catalog.wf(),
        has_entry(catalog.aliases, alias),
    ensures
        catalog.lookup(alias) matches Some(palette) && palette.len() > 0,
{
    let i = position(catalog.aliases, alias);
    let key = catalog.aliases[i].1;
    assert(has_entry(catalog.palettes, key));
    let j = position(catalog.palettes, key);
    assert(catalog.palettes[j].1.len() != 0);
}

/// A name whose base the catalog knows resolves, whatever its case, whether
/// or not it asks for reversal, and whatever the color parser makes of it,
/// to a palette that has a sample.
pub proof fn lemma_known_name_resolves(
    catalog: CatalogView,
    name: Seq<char>,
    ramp: Option<Seq<[u32; 3]>>,
)
    requires
        catalog.wf(),
        has_entry(catalog.aliases, base_name(lowercase(name))),
    ensures
        resolved(catalog, name, ramp) matches Ok(palette) && palette.len() > 0,
{
    lemma_alias_leads_to_palette(catalog, base_name(lowercase(name)));
}

/// A canonical key that the alias table files under its own name leads,
/// once in lower case, to its own palette, which has a sample: neither the
/// name as it was asked for nor the color parser has a say.
pub proof fn lemma_lowered_key_resolves(
    catalog: CatalogView,
    requested: Seq<char>,
    key: Seq<char>,
    ramp: Option<Seq<[u32; 3]>>,
)
    requires
        catalog.wf(),
        !is_reversed(key),
        find(catalog.aliases, key) == Some(key),
    ensures
        resolution(catalog, requested, key, ramp) matches Ok(palette) && palette.len() > 0 && Some(
            palette,
        ) == find(catalog.palettes, key),
{
    lemma_alias_leads_to_palette(catalog, key);
}

/// A canonical key that the alias table files under its own name resolves
/// to its own palette, which has a sample.
pub proof fn lemma_canonical_key_resolves(
    catalog: CatalogView,
    key: Seq<char>,
    ramp: Option<Seq<[u32; 3]>>,
)
    requires
        catalog.wf(),
        plain(key),
        find(catalog.aliases, key) == Some(key),
    ensures
        resolved(catalog, key, ramp) matches Ok(palette) && palette.len() > 0 && Some(palette)
            == find(catalog.palettes, key),
{
    lemma_lowered_key_resolves(catalog, key, key, ramp);
}

/// An alias leads, once in lower case, to the same sequence as the
/// canonical key that it stands for, whatever the color parser makes of
/// either.
pub proof fn lemma_lowered_alias_resolves_like_its_key(
    catalog: CatalogView,
    requested: Seq<char>,
    alias: Seq<char>,
    key: Seq<char>,
    ramp_of_alias: Option<Seq<[u32; 3]>>,
    ramp_of_key: Option<Seq<[u32; 3]>>,
)
    requires
        catalog.wf(),
        !is_reversed(alias),
        !is_reversed(key),
        find(catalog.aliases, alias) == Some(key),
        find(catalog.aliases, key) == Some(key),
    ensures
        resolution(catalog, requested, alias, ramp_of_alias) == resolution(
            catalog,
            requested,
            key,
            ramp_of_key,
        ),
        resolution(catalog, requested, alias, ramp_of_alias) is Ok,
{
    lemma_alias_leads_to_palette(catalog, alias);
}

/// An alias resolves to the same sequence as the canonical key that it
/// stands for, whatever the color parser makes of either.
pub proof fn lemma_alias_resolves_like_its_key(
    catalog: CatalogView,
    alias: Seq<char>,
    key: Seq<char>,
    ramp_of_alias: Option<Seq<[u32; 3]>>,
    ramp_of_key: Option<Seq<[u32; 3]>>,
)
    requires
        catalog.wf(),
        plain(alias),
        plain(key),
        find(catalog.aliases, alias) == Some(key),
        find(catalog.aliases, key) == Some(key),
    ensures
        resolved(catalog, alias, ramp_of_alias) == resolved(catalog, key, ramp_of_key),
        resolved(catalog, alias, ramp_of_alias) is Ok,
{
    lemma_alias_leads_to_palette(catalog, alias);
}

/// A name in lower case, with the reversal suffix behind it, is looked up
/// under the same base as the name without the suffix. So where the catalog
/// knows the name, the suffix gives its palette in exactly the reverse
/// order; and where it does not, the same color is tried, and the same ramp
/// gives the same samples in exactly the reverse order, or the same
/// failure. The name itself must not end in the suffix: only one suffix is
/// taken off.
pub proof fn lemma_lowered_suffix_reverses(
    catalog: CatalogView,
    requested: Seq<char>,
    lowered: Seq<char>,
    ramp: Option<Seq<[u32; 3]>>,
)
    requires
        !is_reversed(lowered),
    ensures
        base_name(lowered + reversal_suffix()) == base_name(lowered),
        match resolution(catalog, requested, lowered, ramp) {
            Ok(palette) => resolution(catalog, requested, lowered + reversal_suffix(), ramp)
                == Ok::<_, Seq<char>>(palette.reverse()),
            Err(_) => resolution(catalog, requested, lowered + reversal_suffix(), ramp) is Err,
        },
{
    let suffixed = lowered + reversal_suffix();
    assert(is_reversed(suffixed));
    assert(base_name(suffixed) == lowered);
}

/// A name with the reversal suffix resolves, given the same ramp, to the
/// palette of the name without it, in exactly the reverse order, and fails
/// where that name fails. The name itself must not end in the suffix, and
/// the suffix must not change how the name is put in lower case.
pub proof fn lemma_suffix_reverses(
    catalog: CatalogView,
    name: Seq<char>,
    ramp: Option<Seq<[u32; 3]>>,
)
    requires
        lowercase(name + reversal_suffix()) == lowercase(name) + reversal_suffix(),
        !is_reversed(lowercase(name)),
    ensures
        match resolved(catalog, name, ramp) {
            Ok(palette) => resolved(catalog, name + reversal_suffix(), ramp) == Ok::<
                _,
                Seq<char>,
            >(palette.reverse()),
            Err(_) => resolved(catalog, name + reversal_suffix(), ramp) is Err,
        },
{
    let lowered = lowercase(name);
    let suffixed = lowered + reversal_suffix();
    assert(is_reversed(suffixed));
    assert(base_name(suffixed) == lowered);
}

/// Reversing twice gives the palette back.
pub proof fn lemma_reversal_is_an_involution(palette: Seq<Sample>)
    ensures
        oriented(oriented(palette, true), true) == palette,
{
    assert(palette.reverse().reverse() =~= palette);
}

/// Names that differ only in case resolve alike, given the same ramp: both
/// to the same palette, or neither.
pub proof fn lemma_case_insensitive(
    catalog: CatalogView,
    a: Seq<char>,
    b: Seq<char>,
    ramp: Option<Seq<[u32; 3]>>,
)
    requires
        lowercase(a) == lowercase(b),
    ensures
        match resolved(catalog, a, ramp) {
            Ok(palette) => resolved(catalog, b, ramp) == Ok::<_, Seq<char>>(palette),
            Err(_) => resolved(catalog, b, ramp) is Err,
        },
{
}

/// Names that differ only in case and that the catalog knows resolve to the
/// same palette, whatever the color parser makes of either.
pub proof fn lemma_case_insensitive_in_catalog(
    catalog: CatalogView,
    a: Seq<char>,
    b: Seq<char>,
    ramp_of_a: Option<Seq<[u32; 3]>>,
    ramp_of_b: Option<Seq<[u32; 3]>>,
)
    requires
        lowercase(a) == lowercase(b),
        catalog.lookup(base_name(lowercase(a))) is Some,
    ensures
        resolved(catalog, a, ramp_of_a) == resolved(catalog, b, ramp_of_b),
        resolved(catalog, a, ramp_of_a) is Ok,
{
}

/// A name fails exactly where the catalog does not know it and no ramp came
/// of it, and is then reported as it was asked for.
pub proof fn lemma_failure_names_the_request(
    catalog: CatalogView,
    name: Seq<char>,
    ramp: Option<Seq<[u32; 3]>>,
)
    ensures
        resolved(catalog, name, ramp) is Err <==> catalog.lookup(base_name(lowercase(name)))
            is None && ramp is None,
        resolved(catalog, name, ramp) matches Err(reported) ==> reported == name,
{
}

/// The names of a catalog are its aliases and its canonical keys, and
/// nothing else.
pub proof fn lemma_names_complete(catalog: CatalogView, name: Seq<char>)
    ensures
        catalog.names().contains(name) <==> has_entry(catalog.aliases, name) || has_entry(
            catalog.palettes,
            name,
        ),
{
    let names = catalog.names();
    let aliases = catalog.aliases;
    let palettes = catalog.palettes;
    if names.contains(name) {
        let i = choose|i: int| 0 <= i < names.len() && names[i] == name;
        if i < aliases.len() {
            assert(aliases[i].0 == name);
        } else {
            assert(palettes[i - aliases.len()].0 == name);
        }
    }
    if has_entry(aliases, name) {
        let i = position(aliases, name);
        assert(names[i] == name);
    }
    if has_entry(palettes, name) {
        let j = position(palettes, name);
        assert(names[aliases.len() + j] == name);
    }
}

/// A name stands twice among the names of a catalog only where it is both
/// an alias and a canonical key: once for each.
pub proof fn lemma_names_repeat_only_across_tables(catalog: CatalogView, i: int, j: int)
    requires
        catalog.wf(),
        0 <= i < j < catalog.names().len(),
        catalog.names()[i] == catalog.names()[j],
    ensures
        i < catalog.aliases.len() <= j,
        has_entry(catalog.aliases, catalog.names()[i]),
        has_entry(catalog.palettes, catalog.names()[i]),
{
    let aliases = catalog.aliases;
    let palettes = catalog.palettes;
    let n = aliases.len() as int;
    if j < n {
        assert(keys(aliases)[i] != keys(aliases)[j]);
    } else if i >= n {
        assert(keys(palettes)[i - n] != keys(palettes)[j - n]);
    } else {
        assert(aliases[i].0 == catalog.names()[i]);
        assert(palettes[j - n].0 == catalog.names()[i]);
    }
}

} // verus!
