//! Minecraft: Java Edition target data: pack formats, pack kinds, resource
//! categories, registry id lists, and the command tree of one release.
//!
//! Nothing here hardcodes a format number, a directory name, or a registry id:
//! all of it is read from a data file and handed to [`TargetData::new`]. Each
//! table is keyed by name, each key once.
use vstd::prelude::*;

use crate::ir::strs_view;
use crate::json::{jview, JVal, Json};
use crate::keyed::{from_pairs, key_sorted, keyed_table, keyed_view};
use crate::text::str_eq;

verus! {

/// A pack format version: the major number the game compares, and the minor
/// number that distinguishes additive revisions within a major.
#[derive(Debug, Clone, Copy, PartialEq, Eq, Structural)]
pub struct PackFormat {
    pub major: u32,
    pub minor: u32,
}

/// One kind of pack (`data`, `resource`, ...): its root directory inside the
/// zip and the key of its format number.
#[derive(Debug, PartialEq, Eq)]
pub struct PackKind {
    pub root: String,
    pub format: String,
}

/// Where a resource category's files land and what extension they carry (no
/// leading dot).
#[derive(Debug, PartialEq, Eq)]
pub struct Category {
    pub directory: String,
    pub extension: String,
}

/// Everything the compiler and emitter need to know about one target release.
#[derive(Debug)]
pub struct TargetData {
    target: String,
    pack_formats: Vec<(String, PackFormat)>,
    pack_kinds: Vec<(String, PackKind)>,
    categories: Vec<(String, Category)>,
    blocks: Vec<String>,
    items: Vec<String>,
    entity_types: Vec<String>,
    commands: Json,
}

pub struct PackKindV {
    pub root: Seq<char>,
    pub format: Seq<char>,
}

pub struct CategoryV {
    pub directory: Seq<char>,
    pub extension: Seq<char>,
}

impl View for PackFormat {
    type V = PackFormat;

    open spec fn view(&self) -> PackFormat {
        *self
    }
}

impl View for PackKind {
    type V = PackKindV;

    open spec fn view(&self) -> PackKindV {
        PackKindV { root: self.root@, format: self.format@ }
    }
}

impl View for Category {
    type V = CategoryV;

    open spec fn view(&self) -> CategoryV {
        CategoryV { directory: self.directory@, extension: self.extension@ }
    }
}

pub struct TargetV {
    pub target: Seq<char>,
    pub pack_formats: Seq<(Seq<char>, PackFormat)>,
    pub pack_kinds: Seq<(Seq<char>, PackKindV)>,
    pub categories: Seq<(Seq<char>, CategoryV)>,
    pub blocks: Seq<Seq<char>>,
    pub items: Seq<Seq<char>>,
    pub entity_types: Seq<Seq<char>>,
    pub commands: JVal,
}

pub open spec fn formats_view(v: Seq<(String, PackFormat)>) -> Seq<(Seq<char>, PackFormat)> {
    Seq::new(v.len(), |i: int| (v[i].0@, v[i].1))
}

pub open spec fn kinds_view(v: Seq<(String, PackKind)>) -> Seq<(Seq<char>, PackKindV)> {
    Seq::new(v.len(), |i: int| (v[i].0@, v[i].1@))
}

pub open spec fn categories_view(v: Seq<(String, Category)>) -> Seq<(Seq<char>, CategoryV)> {
    Seq::new(v.len(), |i: int| (v[i].0@, v[i].1@))
}

impl TargetData {
    #[verifier::type_invariant]
    spec fn tables_sorted(self) -> bool {
        &&& key_sorted(formats_view(self.pack_formats@))
        &&& key_sorted(kinds_view(self.pack_kinds@))
        &&& key_sorted(categories_view(self.categories@))
    }
}

impl View for TargetData {
    type V = TargetV;

    closed spec fn view(&self) -> TargetV {
        TargetV {
            target: self.target@,
            pack_formats: formats_view(self.pack_formats@),
            pack_kinds: kinds_view(self.pack_kinds@),
            categories: categories_view(self.categories@),
            blocks: strs_view(self.blocks@),
            items: strs_view(self.items@),
            entity_types: strs_view(self.entity_types@),
            commands: jview(self.commands),
        }
    }
}

/// The keys of a keyed table.
pub open spec fn keys_of<T>(v: Seq<(String, T)>) -> Seq<Seq<char>> {
    Seq::new(v.len(), |i: int| v[i].0@)
}

/// The first position at or after `from` of the key `k`.
pub open spec fn index_from(keys: Seq<Seq<char>>, k: Seq<char>, from: int) -> Option<int>
    decreases keys.len() - from,
{
    if from < 0 || from >= keys.len() {
        None
    } else if keys[from] == k {
        Some(from)
    } else {
        index_from(keys, k, from + 1)
    }
}

pub proof fn lemma_index_from<T>(keys: Seq<Seq<char>>, k: Seq<char>, from: int)
    requires
        0 <= from,
    ensures
        index_from(keys, k, from) matches Some(i) ==> from <= i < keys.len() && keys[i] == k,
    decreases keys.len() - from,
{
    if from < keys.len() && keys[from] != k {
        lemma_index_from::<T>(keys, k, from + 1);
    }
}

/// The entry keyed `k` in a keyed table.
pub open spec fn table_get<V>(t: Seq<(Seq<char>, V)>, k: Seq<char>) -> Option<V> {
    match index_from(Seq::new(t.len(), |i: int| t[i].0), k, 0) {
        Some(i) => Some(t[i].1),
        None => None,
    }
}

/// The position of the key `k` in a keyed table.
pub fn key_index<T>(v: &Vec<(String, T)>, k: &str) -> (r: Option<usize>)
    ensures
        r matches Some(i) ==> index_from(keys_of(v@), k@, 0) == Some(i as int) && i < v@.len(),
        r is None ==> index_from(keys_of(v@), k@, 0) is None,
{
    let ghost ks = keys_of(v@);
    let mut i: usize = 0;
    while i < v.len()
        invariant
            i <= v@.len(),
            ks == keys_of(v@),
            index_from(ks, k@, 0) == index_from(ks, k@, i as int),
        decreases v@.len() - i,
    {
        if str_eq(v[i].0.as_str(), k) {
            return Some(i);
        }
        i = i + 1;
    }
    None
}

/// The pack format of the pack kind `kind`, resolved through the kind's format
/// key.
pub open spec fn spec_pack_format(t: TargetV, kind: Seq<char>) -> Option<PackFormat> {
    match table_get(t.pack_kinds, kind) {
        Some(k) => table_get(t.pack_formats, k.format),
        None => None,
    }
}

impl TargetData {
    /// Target data from its tables. Each table is kept as a sorted map keeps
    /// it: each key once, in ascending order, a later entry for a key
    /// replacing an earlier one.
    pub fn new(
        target: String,
        pack_formats: Vec<(String, PackFormat)>,
        pack_kinds: Vec<(String, PackKind)>,
        categories: Vec<(String, Category)>,
        blocks: Vec<String>,
        items: Vec<String>,
        entity_types: Vec<String>,
        commands: Json,
    ) -> (r: TargetData)
        ensures
            r@ == (TargetV {
                target: target@,
                pack_formats: from_pairs(formats_view(pack_formats@)),
                pack_kinds: from_pairs(kinds_view(pack_kinds@)),
                categories: from_pairs(categories_view(categories@)),
                blocks: strs_view(blocks@),
                items: strs_view(items@),
                entity_types: strs_view(entity_types@),
                commands: jview(commands),
            }),
    {
        assert(keyed_view(pack_formats@) =~= formats_view(pack_formats@));
        assert(keyed_view(pack_kinds@) =~= kinds_view(pack_kinds@));
        assert(keyed_view(categories@) =~= categories_view(categories@));
        let pack_formats = keyed_table(pack_formats);
        let pack_kinds = keyed_table(pack_kinds);
        let categories = keyed_table(categories);
        assert(keyed_view(pack_formats@) =~= formats_view(pack_formats@));
        assert(keyed_view(pack_kinds@) =~= kinds_view(pack_kinds@));
        assert(keyed_view(categories@) =~= categories_view(categories@));
        TargetData {
            target,
            pack_formats,
            pack_kinds,
            categories,
            blocks,
            items,
            entity_types,
            commands,
        }
    }

    /// The release this data describes, e.g. `26.2`.
    pub fn target(&self) -> (r: &str)
        ensures
            r@ == self@.target,
    {
        self.target.as_str()
    }

    /// The pack format for a pack kind, resolved through the kind's `format`
    /// key. `None` if the kind, or its format, is unknown for this target.
    pub fn pack_format(&self, kind: &str) -> (r: Option<PackFormat>)
        ensures
            r == spec_pack_format(self@, kind@),
    {
        assert(keys_of(self.pack_kinds@) =~= Seq::new(self@.pack_kinds.len(), |i: int| self@.pack_kinds[i].0));
        assert(keys_of(self.pack_formats@) =~= Seq::new(self@.pack_formats.len(), |i: int| self@.pack_formats[i].0));
        match key_index(&self.pack_kinds, kind) {
            Some(i) => match key_index(&self.pack_formats, self.pack_kinds[i].1.format.as_str()) {
                Some(j) => Some(self.pack_formats[j].1),
                None => None,
            },
            None => None,
        }
    }

    /// The pack kind entry (`root`, `format`). `None` if unknown for this
    /// target.
    pub fn pack_kind(&self, kind: &str) -> (r: Option<&PackKind>)
        ensures
            r matches Some(k) ==> table_get(self@.pack_kinds, kind@) == Some(k@),
            r is None ==> table_get(self@.pack_kinds, kind@) is None,
    {
        assert(keys_of(self.pack_kinds@) =~= Seq::new(self@.pack_kinds.len(), |i: int| self@.pack_kinds[i].0));
        match key_index(&self.pack_kinds, kind) {
            Some(i) => Some(&self.pack_kinds[i].1),
            None => None,
        }
    }

    /// Directory and extension for a resource category. `None` if the target
    /// does not define it.
    pub fn category(&self, name: &str) -> (r: Option<&Category>)
        ensures
            r matches Some(c) ==> table_get(self@.categories, name@) == Some(c@),
            r is None ==> table_get(self@.categories, name@) is None,
    {
        assert(keys_of(self.categories@) =~= Seq::new(self@.categories.len(), |i: int| self@.categories[i].0));
        match key_index(&self.categories, name) {
            Some(i) => Some(&self.categories[i].1),
            None => None,
        }
    }

    /// Every category this target defines, keyed by category string.
    pub fn categories(&self) -> (r: &Vec<(String, Category)>)
        ensures
            categories_view(r@) == self@.categories,
            key_sorted(self@.categories),
    {
        proof {
            use_type_invariant(self);
        }
        &self.categories
    }

    /// Block identifiers, namespaced.
    pub fn blocks(&self) -> (r: &[String])
        ensures
            strs_view(r@) == self@.blocks,
    {
        self.blocks.as_slice()
    }

    /// Item identifiers, namespaced.
    pub fn items(&self) -> (r: &[String])
        ensures
            strs_view(r@) == self@.items,
    {
        self.items.as_slice()
    }

    /// Entity type identifiers, namespaced.
    pub fn entity_types(&self) -> (r: &[String])
        ensures
            strs_view(r@) == self@.entity_types,
    {
        self.entity_types.as_slice()
    }

    /// The command tree, without the non-grammar `permissions` fields.
    pub fn commands(&self) -> (r: &Json)
        ensures
            jview(*r) == self@.commands,
    {
        &self.commands
    }
}

} // verus!
