//! IR to file tree to deterministic zip.
//!
//! The emitter is the only component that knows directory names, file
//! extensions, and format numbers, and it reads all of them from target data.
//! Output is byte-identical for the same inputs: entries are kept sorted by
//! path and zip timestamps are fixed.
use vstd::prelude::*;

use serde_json::Value;
use vstd::utf8::encode_utf8;

use crate::ir::{commands_view, resources_view, text_view, Body, BodyV, Command, CommandV, Ir, IrV, PackV, Resource, ResourceV};
use crate::json::{JVal, Json, Number};
use crate::mcversion::{spec_pack_format, table_get, CategoryV, PackFormat, TargetData, TargetV};
use crate::text::{
    cat, chars_of, copy_string, dec_nat, find_char, find_char_in, lemma_find_char_from_bounds,
    lemma_lt_asym, lemma_lt_total, lemma_lt_trans, owned, push_char, push_dec, seq_lt, str_eq,
    str_lt, string_of,
};

verus! {

// ---------------------------------------------------------------------------
// The file tree
// ---------------------------------------------------------------------------
/// Whether the paths of `t` are strictly increasing, so each occurs once.
pub open spec fn sorted_keys(t: Seq<(Seq<char>, Seq<u8>)>) -> bool {
    forall|i: int, j: int| 0 <= i < j < t.len() ==> seq_lt(#[trigger] t[i].0, #[trigger] t[j].0)
}

pub open spec fn entries_view(v: Seq<(String, Vec<u8>)>) -> Seq<(Seq<char>, Seq<u8>)> {
    Seq::new(v.len(), |i: int| (v[i].0@, v[i].1@))
}

/// The first position at or after `from` whose path does not sort before `k`.
pub open spec fn tree_pos_from(t: Seq<(Seq<char>, Seq<u8>)>, k: Seq<char>, from: int) -> int
    decreases t.len() - from,
{
    if from < 0 || from >= t.len() {
        t.len() as int
    } else if !seq_lt(t[from].0, k) {
        from
    } else {
        tree_pos_from(t, k, from + 1)
    }
}

/// `t` with `k` set to `v`, as a map insert takes it: replaced where the path
/// is present, otherwise added in its sorted place.
pub open spec fn tinsert(t: Seq<(Seq<char>, Seq<u8>)>, k: Seq<char>, v: Seq<u8>) -> Seq<
    (Seq<char>, Seq<u8>),
> {
    let p = tree_pos_from(t, k, 0);
    if p < t.len() && t[p].0 == k {
        t.update(p, (k, v))
    } else {
        t.insert(p, (k, v))
    }
}

/// The first position at or after `from` of the path `k`.
pub open spec fn tree_key_from(t: Seq<(Seq<char>, Seq<u8>)>, k: Seq<char>, from: int) -> Option<int>
    decreases t.len() - from,
{
    if from < 0 || from >= t.len() {
        None
    } else if t[from].0 == k {
        Some(from)
    } else {
        tree_key_from(t, k, from + 1)
    }
}

/// The bytes stored at `k`.
pub open spec fn tree_get(t: Seq<(Seq<char>, Seq<u8>)>, k: Seq<char>) -> Option<Seq<u8>> {
    match tree_key_from(t, k, 0) {
        Some(i) => Some(t[i].1),
        None => None,
    }
}

proof fn lemma_pos_from(t: Seq<(Seq<char>, Seq<u8>)>, k: Seq<char>, from: int)
    requires
        0 <= from <= t.len(),
    ensures
        from <= tree_pos_from(t, k, from) <= t.len(),
        forall|i: int| from <= i < tree_pos_from(t, k, from) ==> seq_lt(#[trigger] t[i].0, k),
        tree_pos_from(t, k, from) < t.len() ==> !seq_lt(t[tree_pos_from(t, k, from)].0, k),
    decreases t.len() - from,
{
    if from < t.len() && seq_lt(t[from].0, k) {
        lemma_pos_from(t, k, from + 1);
    }
}

proof fn lemma_key_from(t: Seq<(Seq<char>, Seq<u8>)>, k: Seq<char>, from: int)
    requires
        0 <= from,
    ensures
        tree_key_from(t, k, from) matches Some(i) ==> from <= i < t.len() && t[i].0 == k
            && forall|j: int| from <= j < i ==> (#[trigger] t[j].0) != k,
        tree_key_from(t, k, from) is None ==> forall|j: int| from <= j < t.len() ==> (#[trigger] t[j].0) != k,
    decreases t.len() - from,
{
    if from < t.len() && t[from].0 != k {
        lemma_key_from(t, k, from + 1);
    }
}

/// In a sorted tree the position of `k` is its sorted place.
proof fn lemma_get_sorted(t: Seq<(Seq<char>, Seq<u8>)>, k: Seq<char>, i: int)
    requires
        sorted_keys(t),
        0 <= i < t.len(),
        t[i].0 == k,
    ensures
        tree_get(t, k) == Some(t[i].1),
{
    lemma_key_from(t, k, 0);
    match tree_key_from(t, k, 0) {
        Some(j) => {
            if j < i {
                assert(seq_lt(t[j].0, t[i].0));
                lemma_lt_asym(k, k);
            }
        },
        None => {},
    }
}

/// A tree behaves as a sorted map: inserting into a sorted tree keeps it
/// sorted, and afterwards `k` holds `v` and every other path holds what it
/// held.
pub proof fn law_tree_insert(t: Seq<(Seq<char>, Seq<u8>)>, k: Seq<char>, v: Seq<u8>)
    requires
        sorted_keys(t),
    ensures
        sorted_keys(tinsert(t, k, v)),
        forall|k2: Seq<char>| #[trigger] tree_get(tinsert(t, k, v), k2) == if k2 == k {
            Some(v)
        } else {
            tree_get(t, k2)
        },
{
    let p = tree_pos_from(t, k, 0);
    lemma_pos_from(t, k, 0);
    let r = tinsert(t, k, v);
    if p < t.len() && t[p].0 == k {
        assert forall|i: int, j: int| 0 <= i < j < r.len() implies seq_lt(#[trigger] r[i].0, #[trigger] r[j].0) by {
            assert(r[i].0 == t[i].0 && r[j].0 == t[j].0);
        }
    } else {
        if p < t.len() {
            lemma_lt_total(t[p].0, k);
        }
        assert forall|i: int, j: int| 0 <= i < j < r.len() implies seq_lt(#[trigger] r[i].0, #[trigger] r[j].0) by {
            if j < p {
                assert(r[i].0 == t[i].0 && r[j].0 == t[j].0);
            } else if j == p {
                assert(r[i].0 == t[i].0);
            } else if i == p {
                assert(r[j].0 == t[j - 1].0);
                if j - 1 > p {
                    assert(seq_lt(t[p].0, t[j - 1].0));
                    lemma_lt_trans(k, t[p].0, t[j - 1].0);
                }
            } else if i < p {
                assert(r[i].0 == t[i].0 && r[j].0 == t[j - 1].0);
                if j - 1 >= p {
                    if j - 1 > p {
                        assert(seq_lt(t[p].0, t[j - 1].0));
                        lemma_lt_trans(k, t[p].0, t[j - 1].0);
                    }
                    lemma_lt_trans(t[i].0, k, t[j - 1].0);
                }
            } else {
                assert(r[i].0 == t[i - 1].0 && r[j].0 == t[j - 1].0);
            }
        }
    }
    assert forall|k2: Seq<char>| #[trigger] tree_get(r, k2) == if k2 == k {
        Some(v)
    } else {
        tree_get(t, k2)
    } by {
        if k2 == k {
            assert(r[p].0 == k);
            lemma_get_sorted(r, k, p);
        } else {
            lemma_key_from(t, k2, 0);
            match tree_key_from(t, k2, 0) {
                Some(i) => {
                    let ri = if p < t.len() && t[p].0 == k {
                        i
                    } else if i < p {
                        i
                    } else {
                        i + 1
                    };
                    assert(r[ri] == t[i]);
                    lemma_get_sorted(r, k2, ri);
                },
                None => {
                    lemma_key_from(r, k2, 0);
                    match tree_key_from(r, k2, 0) {
                        Some(j) => {
                            if p < t.len() && t[p].0 == k {
                                assert(r[j] == t[j] || j == p);
                            } else if j < p {
                                assert(r[j] == t[j]);
                            } else if j > p {
                                assert(r[j] == t[j - 1]);
                            }
                        },
                        None => {},
                    }
                },
            }
        }
    }
}

/// The pack contents, path to bytes, exactly as they appear inside the built
/// zip, sorted by path: iteration order is the emit order.
pub struct FileTree {
    entries: Vec<(String, Vec<u8>)>,
}

impl FileTree {
    #[verifier::type_invariant]
    spec fn well_formed(self) -> bool {
        sorted_keys(entries_view(self.entries@))
    }
}

impl View for FileTree {
    type V = Seq<(Seq<char>, Seq<u8>)>;

    closed spec fn view(&self) -> Seq<(Seq<char>, Seq<u8>)> {
        entries_view(self.entries@)
    }
}

impl FileTree {
    /// An empty tree.
    pub fn new() -> (r: FileTree)
        ensures
            r@ == Seq::<(Seq<char>, Seq<u8>)>::empty(),
            sorted_keys(r@),
    {
        let r = FileTree { entries: Vec::new() };
        assert(r@ =~= Seq::<(Seq<char>, Seq<u8>)>::empty());
        r
    }

    /// Sets `path` to `bytes`.
    pub fn insert(&mut self, path: String, bytes: Vec<u8>)
        ensures
            final(self)@ == tinsert(old(self)@, path@, bytes@),
            sorted_keys(final(self)@),
    {
        proof {
            use_type_invariant(&*self);
        }
        let ghost t = self@;
        let mut i: usize = 0;
        while i < self.entries.len() && str_lt(self.entries[i].0.as_str(), path.as_str())
            invariant
                i <= self.entries@.len(),
                t == entries_view(self.entries@),
                tree_pos_from(t, path@, 0) == tree_pos_from(t, path@, i as int),
            decreases self.entries@.len() - i,
        {
            i = i + 1;
        }
        proof {
            law_tree_insert(t, path@, bytes@);
        }
        let ghost pv = path@;
        let ghost bv = bytes@;
        if i < self.entries.len() && str_eq(self.entries[i].0.as_str(), path.as_str()) {
            let mut entries = Vec::new();
            std::mem::swap(&mut entries, &mut self.entries);
            entries.set(i, (path, bytes));
            assert(entries_view(entries@) =~= tinsert(t, pv, bv));
            self.entries = entries;
        } else {
            let mut entries = Vec::new();
            std::mem::swap(&mut entries, &mut self.entries);
            entries.insert(i, (path, bytes));
            assert(entries_view(entries@) =~= tinsert(t, pv, bv));
            self.entries = entries;
        }
    }

    /// The bytes at `path`.
    pub fn get(&self, path: &str) -> (r: Option<&Vec<u8>>)
        ensures
            r matches Some(b) ==> tree_get(self@, path@) == Some(b@),
            r is None ==> tree_get(self@, path@) is None,
    {
        let ghost t = self@;
        let mut i: usize = 0;
        while i < self.entries.len()
            invariant
                i <= self.entries@.len(),
                t == entries_view(self.entries@),
                tree_key_from(t, path@, 0) == tree_key_from(t, path@, i as int),
            decreases self.entries@.len() - i,
        {
            if str_eq(self.entries[i].0.as_str(), path) {
                return Some(&self.entries[i].1);
            }
            i = i + 1;
        }
        None
    }

    /// The number of files.
    pub fn len(&self) -> (r: usize)
        ensures
            r == self@.len(),
    {
        self.entries.len()
    }

    /// The paths, in order.
    pub fn keys(&self) -> (r: Vec<String>)
        ensures
            r@.len() == self@.len(),
            forall|i: int| 0 <= i < r@.len() ==> (#[trigger] r@[i])@ == self@[i].0,
    {
        let mut out: Vec<String> = Vec::new();
        let mut i: usize = 0;
        while i < self.entries.len()
            invariant
                i <= self.entries@.len(),
                out@.len() == i,
                forall|j: int| 0 <= j < i ==> (#[trigger] out@[j])@ == self@[j].0,
            decreases self.entries@.len() - i,
        {
            out.push(crate::text::copy_string(&self.entries[i].0));
            i = i + 1;
        }
        out
    }

    /// The files, in path order.
    pub fn entries(&self) -> (r: &Vec<(String, Vec<u8>)>)
        ensures
            entries_view(r@) == self@,
            sorted_keys(self@),
    {
        proof {
            use_type_invariant(self);
        }
        &self.entries
    }
}


// ---------------------------------------------------------------------------
// Zip
// ---------------------------------------------------------------------------
/// `n` as a `u32`, or `u32::MAX` where it does not fit.
pub open spec fn sat32(n: int) -> u32 {
    if 0 <= n <= u32::MAX {
        n as u32
    } else {
        u32::MAX
    }
}

/// `n` as a `u16`, or `u16::MAX` where it does not fit.
pub open spec fn sat16(n: int) -> u16 {
    if 0 <= n <= u16::MAX {
        n as u16
    } else {
        u16::MAX
    }
}

/// The little-endian bytes of a `u16`.
pub open spec fn le16(v: u16) -> Seq<u8> {
    seq![(v % 256) as u8, (v / 256) as u8]
}

/// The little-endian bytes of a `u32`: its low half, then its high half.
pub open spec fn le32(v: u32) -> Seq<u8> {
    le16((v % 65536) as u16) + le16((v / 65536) as u16)
}

/// One step of the reflected CRC-32 (polynomial `0xEDB88320`) over one bit.
pub open spec fn crc_bit(c: u32) -> u32 {
    if c & 1 == 1 {
        (c >> 1) ^ 0xEDB8_8320u32
    } else {
        c >> 1
    }
}

/// `n` bit steps.
pub open spec fn crc_bits(c: u32, n: nat) -> u32
    decreases n,
{
    if n == 0 {
        c
    } else {
        crc_bits(crc_bit(c), (n - 1) as nat)
    }
}

/// The CRC register after `bytes`, from the all-ones start.
pub open spec fn crc_register(bytes: Seq<u8>) -> u32
    decreases bytes.len(),
{
    if bytes.len() == 0 {
        0xFFFF_FFFFu32
    } else {
        crc_bits(crc_register(bytes.drop_last()) ^ (bytes.last() as u32), 8)
    }
}

/// The CRC-32 of `bytes`, as zip records it.
pub open spec fn spec_crc32(bytes: Seq<u8>) -> u32 {
    !crc_register(bytes)
}

pub const ZIP_VERSION: u16 = 20;

/// The DOS date of 1980-01-01, the zero point of the DOS epoch.
pub const DOS_DATE: u16 = 0x21;

/// The local file header of one entry, followed by its name and data.
#[verifier::opaque]
pub open spec fn local_entry(name: Seq<u8>, data: Seq<u8>) -> Seq<u8> {
    let size = sat32(data.len() as int);
    le32(0x0403_4b50) + le16(ZIP_VERSION) + le16(0) + le16(0) + le16(0) + le16(DOS_DATE) + le32(
        spec_crc32(data),
    ) + le32(size) + le32(size) + le16(sat16(name.len() as int)) + le16(0) + name + data
}

/// The central directory header of one entry whose local header is at
/// `offset`.
#[verifier::opaque]
pub open spec fn central_entry(name: Seq<u8>, data: Seq<u8>, offset: u32) -> Seq<u8> {
    let size = sat32(data.len() as int);
    le32(0x0201_4b50) + le16(ZIP_VERSION) + le16(ZIP_VERSION) + le16(0) + le16(0) + le16(0) + le16(
        DOS_DATE,
    ) + le32(spec_crc32(data)) + le32(size) + le32(size) + le16(sat16(name.len() as int)) + le16(
        0,
    ) + le16(0) + le16(0) + le16(0) + le32(0) + le32(offset) + name
}

/// The local entries and the central directory of the first `n` entries.
pub open spec fn zip_parts(t: Seq<(Seq<char>, Seq<u8>)>, n: int) -> (Seq<u8>, Seq<u8>)
    decreases n,
{
    if n <= 0 || n > t.len() {
        (Seq::empty(), Seq::empty())
    } else {
        let (local, central) = zip_parts(t, n - 1);
        let name = encode_utf8(t[n - 1].0);
        let data = t[n - 1].1;
        (local + local_entry(name, data), central + central_entry(name, data, sat32(local.len() as int)))
    }
}

/// The end-of-central-directory record.
pub open spec fn end_record(count: int, central_len: int, central_offset: int) -> Seq<u8> {
    le32(0x0605_4b50) + le16(0) + le16(0) + le16(sat16(count)) + le16(sat16(count)) + le32(
        sat32(central_len),
    ) + le32(sat32(central_offset)) + le16(0)
}

/// The zip of a file tree: every entry stored uncompressed, in order, then the
/// central directory and its end record.
pub open spec fn spec_zip(t: Seq<(Seq<char>, Seq<u8>)>) -> Seq<u8> {
    let (local, central) = zip_parts(t, t.len() as int);
    local + central + end_record(t.len() as int, central.len() as int, local.len() as int)
}

fn to_u32(n: usize) -> (r: u32)
    ensures
        r == sat32(n as int),
{
    if n <= 0xFFFF_FFFFusize {
        n as u32
    } else {
        0xFFFF_FFFFu32
    }
}

fn to_u16(n: usize) -> (r: u16)
    ensures
        r == sat16(n as int),
{
    if n <= 0xFFFFusize {
        n as u16
    } else {
        0xFFFFu16
    }
}

fn push16(out: &mut Vec<u8>, v: u16)
    ensures
        final(out)@ == old(out)@ + le16(v),
{
    out.push((v % 256) as u8);
    out.push((v / 256) as u8);
    assert(final(out)@ =~= old(out)@ + le16(v));
}

fn push32(out: &mut Vec<u8>, v: u32)
    ensures
        final(out)@ == old(out)@ + le32(v),
{
    push16(out, (v % 65536) as u16);
    push16(out, (v / 65536) as u16);
    assert(final(out)@ =~= old(out)@ + le32(v));
}

fn push_bytes(out: &mut Vec<u8>, bytes: &[u8])
    ensures
        final(out)@ == old(out)@ + bytes@,
{
    let mut i: usize = 0;
    while i < bytes.len()
        invariant
            i <= bytes@.len(),
            out@ == old(out)@ + bytes@.subrange(0, i as int),
        decreases bytes@.len() - i,
    {
        out.push(bytes[i]);
        i = i + 1;
        assert(out@ =~= old(out)@ + bytes@.subrange(0, i as int));
    }
    assert(bytes@.subrange(0, i as int) =~= bytes@);
}

/// The CRC-32 of `bytes`.
fn crc32(bytes: &[u8]) -> (r: u32)
    ensures
        r == spec_crc32(bytes@),
{
    let mut crc: u32 = 0xFFFF_FFFF;
    let mut i: usize = 0;
    while i < bytes.len()
        invariant
            i <= bytes@.len(),
            crc == crc_register(bytes@.subrange(0, i as int)),
        decreases bytes@.len() - i,
    {
        let ghost before = crc_register(bytes@.subrange(0, i as int));
        crc = crc ^ (bytes[i] as u32);
        let ghost start = crc;
        let mut k: u32 = 0;
        while k < 8
            invariant
                k <= 8,
                crc_bits(start, 8) == crc_bits(crc, (8 - k) as nat),
            decreases 8 - k,
        {
            crc = if crc & 1 == 1 {
                (crc >> 1) ^ 0xEDB8_8320u32
            } else {
                crc >> 1
            };
            k = k + 1;
        }
        assert(bytes@.subrange(0, i + 1).drop_last() =~= bytes@.subrange(0, i as int));
        i = i + 1;
    }
    assert(bytes@.subrange(0, i as int) =~= bytes@);
    !crc
}

fn write_local(out: &mut Vec<u8>, name: &[u8], data: &[u8], crc: u32)
    requires
        crc == spec_crc32(data@),
    ensures
        final(out)@ == old(out)@ + local_entry(name@, data@),
{
    let size = to_u32(data.len());
    push32(out, 0x0403_4b50);
    push16(out, ZIP_VERSION);
    push16(out, 0);
    push16(out, 0);
    push16(out, 0);
    push16(out, DOS_DATE);
    push32(out, crc);
    push32(out, size);
    push32(out, size);
    push16(out, to_u16(name.len()));
    push16(out, 0);
    push_bytes(out, name);
    push_bytes(out, data);
    proof {
        reveal(local_entry);
    }
    assert(final(out)@ =~= old(out)@ + local_entry(name@, data@));
}

fn write_central(out: &mut Vec<u8>, name: &[u8], data: &[u8], crc: u32, offset: u32)
    requires
        crc == spec_crc32(data@),
    ensures
        final(out)@ == old(out)@ + central_entry(name@, data@, offset),
{
    let size = to_u32(data.len());
    push32(out, 0x0201_4b50);
    push16(out, ZIP_VERSION);
    push16(out, ZIP_VERSION);
    push16(out, 0);
    push16(out, 0);
    push16(out, 0);
    push16(out, DOS_DATE);
    push32(out, crc);
    push32(out, size);
    push32(out, size);
    push16(out, to_u16(name.len()));
    push16(out, 0);
    push16(out, 0);
    push16(out, 0);
    push16(out, 0);
    push32(out, 0);
    push32(out, offset);
    push_bytes(out, name);
    proof {
        reveal(central_entry);
    }
    assert(final(out)@ =~= old(out)@ + central_entry(name@, data@, offset));
}

fn write_end(out: &mut Vec<u8>, count: usize, central_len: usize, central_offset: usize)
    ensures
        final(out)@ == old(out)@ + end_record(count as int, central_len as int, central_offset as int),
{
    push32(out, 0x0605_4b50);
    push16(out, 0);
    push16(out, 0);
    push16(out, to_u16(count));
    push16(out, to_u16(count));
    push32(out, to_u32(central_len));
    push32(out, to_u32(central_offset));
    push16(out, 0);
    assert(final(out)@ =~= old(out)@ + end_record(count as int, central_len as int, central_offset as int));
}

/// Packs the file tree into a zip, deterministically: no compression, entries
/// in sorted order, every timestamp pinned to 1980-01-01.
pub fn zip(tree: &FileTree) -> (r: Vec<u8>)
    ensures
        r@ == spec_zip(tree@),
{
    let entries = tree.entries();
    let ghost t = tree@;
    let mut out: Vec<u8> = Vec::new();
    let mut central: Vec<u8> = Vec::new();
    let mut i: usize = 0;
    while i < entries.len()
        invariant
            i <= entries@.len(),
            t == entries_view(entries@),
            (out@, central@) == zip_parts(t, i as int),
        decreases entries@.len() - i,
    {
        let name = entries[i].0.as_str().as_bytes();
        let data = entries[i].1.as_slice();
        let crc = crc32(data);
        let offset = to_u32(out.len());
        write_local(&mut out, name, data, crc);
        write_central(&mut central, name, data, crc, offset);
        assert(name@ == encode_utf8(t[i as int].0));
        assert(data@ == t[i as int].1);
        i = i + 1;
    }
    let local_len = out.len();
    let central_len = central.len();
    push_bytes(&mut out, central.as_slice());
    write_end(&mut out, entries.len(), central_len, local_len);
    out
}

// ---------------------------------------------------------------------------
// IR to file tree
// ---------------------------------------------------------------------------
/// Why an IR document could not be emitted for a target.
#[derive(Debug)]
pub enum EmitError {
    UnsupportedPackKind { target: String, kind: String },
    UnsupportedCategory { target: String, category: String },
    UnnamespacedId { id: String },
}

pub enum EmitErrorV {
    UnsupportedPackKind { target: Seq<char>, kind: Seq<char> },
    UnsupportedCategory { target: Seq<char>, category: Seq<char> },
    UnnamespacedId { id: Seq<char> },
}

impl View for EmitError {
    type V = EmitErrorV;

    open spec fn view(&self) -> EmitErrorV {
        match self {
            EmitError::UnsupportedPackKind { target, kind } => EmitErrorV::UnsupportedPackKind {
                target: target@,
                kind: kind@,
            },
            EmitError::UnsupportedCategory { target, category } => EmitErrorV::UnsupportedCategory {
                target: target@,
                category: category@,
            },
            EmitError::UnnamespacedId { id } => EmitErrorV::UnnamespacedId { id: id@ },
        }
    }
}

/// The text of an emit error.
pub open spec fn error_message(e: EmitErrorV) -> Seq<char> {
    match e {
        EmitErrorV::UnsupportedPackKind { target, kind } => "target "@ + target
            + " does not support pack kind '"@ + kind + "'"@,
        EmitErrorV::UnsupportedCategory { target, category } => "target "@ + target
            + " does not define resource category '"@ + category + "'"@,
        EmitErrorV::UnnamespacedId { id } => "resource id '"@ + id + "' has no namespace"@,
    }
}

impl EmitError {
    /// What went wrong, in words.
    pub fn message(&self) -> (r: String)
        ensures
            r@ == error_message(self@),
    {
        match self {
            EmitError::UnsupportedPackKind { target, kind } => {
                let mut r = cat("target ", target.as_str());
                r.append(" does not support pack kind '");
                r.append(kind.as_str());
                r.append("'");
                r
            },
            EmitError::UnsupportedCategory { target, category } => {
                let mut r = cat("target ", target.as_str());
                r.append(" does not define resource category '");
                r.append(category.as_str());
                r.append("'");
                r
            },
            EmitError::UnnamespacedId { id } => {
                let mut r = cat("resource id '", id.as_str());
                r.append("' has no namespace");
                r
            },
        }
    }
}

/// The bytes serde_json writes for a JSON value: compact, object keys in
/// sorted order, array order kept.
pub uninterp spec fn json_text(v: JVal) -> Seq<u8>;

#[verifier::external_type_specification]
#[verifier::external_body]
pub struct ExJsonValue(serde_json::Value);

/// The same value as a `serde_json::Value`; a number kept as text is read
/// back as a number.
#[verifier::external_body]
fn to_value(j: &Json) -> Value {
    match j {
        Json::Null => Value::Null,
        Json::Bool(b) => Value::Bool(*b),
        Json::Number(Number::Int(n)) => Value::from(*n),
        Json::Number(Number::UInt(n)) => Value::from(*n),
        Json::Number(Number::Other(t)) => t.parse().map(Value::Number).unwrap_or(Value::Null),
        Json::Str(t) => Value::String(t.clone()),
        Json::Array(items) => Value::Array(items.iter().map(to_value).collect()),
        Json::Object(es) => Value::Object(es.iter().map(|(k, v)| (k.clone(), to_value(v))).collect()),
    }
}

/// `serde_json::to_vec` of the value: its compact serialisation. The contract
/// names the bytes without stating them.
#[verifier::external_body]
fn json_to_vec(value: &Json) -> (r: Vec<u8>)
    ensures
        r@ == json_text(value@),
{
    serde_json::to_vec(&to_value(value)).unwrap_or_default()
}

/// The lines of a function body, each ended by LF.
pub open spec fn lines_text(statements: Seq<CommandV>) -> Seq<char>
    decreases statements.len(),
{
    if statements.len() == 0 {
        Seq::empty()
    } else {
        let CommandV::Text { command, .. } = statements.last();
        lines_text(statements.drop_last()) + command + seq!['\n']
    }
}

/// The bytes of a resource body: function lines in UTF-8, or the JSON text
/// and one LF.
pub open spec fn body_bytes(b: BodyV) -> Seq<u8> {
    match b {
        BodyV::Commands { statements } => encode_utf8(lines_text(statements)),
        BodyV::Json { value } => json_text(value).push(10u8),
    }
}

/// The path of a resource: `<root>/<namespace>/<directory>/<id path>.<extension>`.
pub open spec fn resource_path(root: Seq<char>, id: Seq<char>, colon: int, cat: CategoryV) -> Seq<char> {
    root + "/"@ + id.take(colon) + "/"@ + cat.directory + "/"@ + id.skip(colon + 1) + "."@
        + cat.extension
}

/// One resource to its path and bytes.
pub open spec fn spec_emit_resource(root: Seq<char>, r: ResourceV, t: TargetV) -> Result<
    (Seq<char>, Seq<u8>),
    EmitErrorV,
> {
    match table_get(t.categories, r.category) {
        None => Err(EmitErrorV::UnsupportedCategory { target: t.target, category: r.category }),
        Some(cat) => match find_char(r.id, ':') {
            None => Err(EmitErrorV::UnnamespacedId { id: r.id }),
            Some(i) => Ok((resource_path(root, r.id, i, cat), body_bytes(r.body))),
        },
    }
}

/// `pack.mcmeta`: the description (an empty string when there is none), the
/// format as `[major, minor]` for the lower bound and the bare major for the
/// upper bound, compact, with one LF.
pub open spec fn mcmeta_bytes(description: Option<JVal>, f: PackFormat) -> Seq<u8> {
    let d = match description {
        Some(d) => d,
        None => JVal::Str(Seq::empty()),
    };
    encode_utf8("{\"pack\":{\"description\":"@) + json_text(d) + encode_utf8(
        ",\"min_format\":["@ + dec_nat(f.major as nat) + ","@ + dec_nat(f.minor as nat)
            + "],\"max_format\":"@ + dec_nat(f.major as nat) + "}}\n"@,
    )
}

/// The resources of a pack from index `i` on, added to `acc`.
pub open spec fn tree_resources(
    root: Seq<char>,
    rs: Seq<ResourceV>,
    t: TargetV,
    i: int,
    acc: Seq<(Seq<char>, Seq<u8>)>,
) -> Result<Seq<(Seq<char>, Seq<u8>)>, EmitErrorV>
    decreases rs.len() - i,
{
    if i < 0 || i >= rs.len() {
        Ok(acc)
    } else {
        match spec_emit_resource(root, rs[i], t) {
            Err(e) => Err(e),
            Ok((path, bytes)) => tree_resources(root, rs, t, i + 1, tinsert(acc, path, bytes)),
        }
    }
}

/// The packs from index `i` on, added to `acc`.
pub open spec fn tree_packs(packs: Seq<PackV>, t: TargetV, i: int, acc: Seq<(Seq<char>, Seq<u8>)>) -> Result<
    Seq<(Seq<char>, Seq<u8>)>,
    EmitErrorV,
>
    decreases packs.len() - i,
{
    if i < 0 || i >= packs.len() {
        Ok(acc)
    } else {
        let p = packs[i];
        let unsupported = EmitErrorV::UnsupportedPackKind { target: t.target, kind: p.kind };
        match table_get(t.pack_kinds, p.kind) {
            None => Err(unsupported),
            Some(kind) => match spec_pack_format(t, p.kind) {
                None => Err(unsupported),
                Some(f) => match tree_resources(
                    kind.root,
                    p.resources,
                    t,
                    0,
                    tinsert(acc, "pack.mcmeta"@, mcmeta_bytes(p.description, f)),
                ) {
                    Err(e) => Err(e),
                    Ok(acc2) => tree_packs(packs, t, i + 1, acc2),
                },
            },
        }
    }
}

/// The file tree of an IR document for a target.
pub open spec fn spec_file_tree(ir: IrV, t: TargetV) -> Result<Seq<(Seq<char>, Seq<u8>)>, EmitErrorV> {
    tree_packs(ir.packs, t, 0, Seq::empty())
}

fn append_str(out: &mut Vec<u8>, s: &str)
    ensures
        final(out)@ == old(out)@ + encode_utf8(s@),
{
    push_bytes(out, s.as_bytes());
}

/// A function body: one line per statement, each ended by LF.
fn function_bytes(statements: &[Command]) -> (r: Vec<u8>)
    ensures
        r@ == encode_utf8(lines_text(commands_view(statements@))),
{
    let ghost sv = commands_view(statements@);
    let mut out = String::new();
    let mut i: usize = 0;
    while i < statements.len()
        invariant
            i <= statements@.len(),
            sv == commands_view(statements@),
            out@ == lines_text(sv.take(i as int)),
        decreases statements@.len() - i,
    {
        let Command::Text { command, .. } = &statements[i];
        assert(sv.take(i + 1).drop_last() =~= sv.take(i as int));
        out.append(command.as_str());
        push_char(&mut out, '\n');
        i = i + 1;
    }
    assert(sv.take(i as int) =~= sv);
    let mut r: Vec<u8> = Vec::new();
    append_str(&mut r, out.as_str());
    r
}

/// A JSON body: its compact serialisation and one LF.
fn json_bytes(value: &Json) -> (r: Vec<u8>)
    ensures
        r@ == json_text(value@).push(10u8),
{
    let mut bytes = json_to_vec(value);
    bytes.push(10u8);
    bytes
}

fn mcmeta(description: &Option<Json>, f: PackFormat) -> (r: Vec<u8>)
    ensures
        r@ == mcmeta_bytes(text_view(*description), f),
{
    let mut out: Vec<u8> = Vec::new();
    append_str(&mut out, "{\"pack\":{\"description\":");
    let desc = match description {
        Some(d) => json_to_vec(d),
        None => json_to_vec(&Json::Str(String::new())),
    };
    push_bytes(&mut out, desc.as_slice());
    let mut tail = String::new();
    tail.append(",\"min_format\":[");
    push_dec(&mut tail, f.major as u64);
    tail.append(",");
    push_dec(&mut tail, f.minor as u64);
    tail.append("],\"max_format\":");
    push_dec(&mut tail, f.major as u64);
    tail.append("}}\n");
    append_str(&mut out, tail.as_str());
    proof {
        let d = match text_view(*description) {
            Some(d) => d,
            None => JVal::Str(Seq::empty()),
        };
        assert(desc@ == json_text(d));
    }
    out
}

/// One resource to its path and bytes.
fn emit_resource(root: &str, resource: &Resource, target: &TargetData) -> (r: Result<(String, Vec<u8>), EmitError>)
    ensures
        (match r {
            Ok((p, b)) => Ok((p@, b@)),
            Err(e) => Err(e@),
        }) == spec_emit_resource(root@, resource@, target@),
{
    let category = match target.category(resource.category.as_str()) {
        Some(c) => c,
        None => {
            return Err(EmitError::UnsupportedCategory {
                target: owned(target.target()),
                category: copy_string(&resource.category),
            });
        },
    };
    let id = chars_of(resource.id.as_str());
    proof {
        lemma_find_char_from_bounds(id@, ':', 0);
    }
    let colon = match find_char_in(&id, ':') {
        Some(i) => i,
        None => {
            return Err(EmitError::UnnamespacedId { id: copy_string(&resource.id) });
        },
    };
    let mut path = owned(root);
    path.append("/");
    let namespace = string_of(&id, 0, colon);
    path.append(namespace.as_str());
    path.append("/");
    path.append(category.directory.as_str());
    path.append("/");
    let id_path = string_of(&id, colon + 1, id.len());
    path.append(id_path.as_str());
    path.append(".");
    path.append(category.extension.as_str());
    let bytes = match &resource.body {
        Body::Commands { statements } => function_bytes(statements.as_slice()),
        Body::Json { value } => json_bytes(value),
    };
    proof {
        assert(id@.take(colon as int) =~= id@.subrange(0, colon as int));
        assert(id@.skip(colon + 1) =~= id@.subrange(colon + 1, id@.len() as int));
        assert(path@ =~= resource_path(root@, resource@.id, colon as int, category@));
    }
    Ok((path, bytes))
}

/// Lowers an IR document to its file tree for a target. Every path comes from
/// target data: the pack root from the pack kind, the directory and extension
/// from the resource category.
pub fn file_tree(ir: &Ir, target: &TargetData) -> (r: Result<FileTree, EmitError>)
    ensures
        (match r {
            Ok(t) => Ok(t@),
            Err(e) => Err(e@),
        }) == spec_file_tree(ir@, target@),
{
    let mut tree = FileTree::new();
    let ghost packs = ir@.packs;
    let mut i: usize = 0;
    while i < ir.packs.len()
        invariant
            i <= ir.packs@.len(),
            packs == ir@.packs,
            spec_file_tree(ir@, target@) == tree_packs(packs, target@, i as int, tree@),
        decreases ir.packs@.len() - i,
    {
        let pack = &ir.packs[i];
        assert(packs[i as int] == pack@);
        let kind = match target.pack_kind(pack.kind.as_str()) {
            Some(k) => k,
            None => {
                return Err(EmitError::UnsupportedPackKind {
                    target: owned(target.target()),
                    kind: copy_string(&pack.kind),
                });
            },
        };
        let format = match target.pack_format(pack.kind.as_str()) {
            Some(f) => f,
            None => {
                return Err(EmitError::UnsupportedPackKind {
                    target: owned(target.target()),
                    kind: copy_string(&pack.kind),
                });
            },
        };
        let meta = mcmeta(&pack.description, format);
        proof {
            reveal_strlit("pack.mcmeta");
        }
        tree.insert(owned("pack.mcmeta"), meta);
        let ghost rs = pack@.resources;
        let ghost acc0 = tree@;
        let root = kind.root.as_str();
        assert(spec_file_tree(ir@, target@) == match tree_resources(root@, rs, target@, 0, acc0) {
            Err(e) => Err(e),
            Ok(acc2) => tree_packs(packs, target@, i as int + 1, acc2),
        });
        let mut j: usize = 0;
        while j < pack.resources.len()
            invariant
                j <= pack.resources@.len(),
                rs == resources_view(pack.resources@),
                tree_resources(root@, rs, target@, 0, acc0) == tree_resources(root@, rs, target@, j as int, tree@),
                spec_file_tree(ir@, target@) == match tree_resources(root@, rs, target@, 0, acc0) {
                    Err(e) => Err(e),
                    Ok(acc2) => tree_packs(packs, target@, i as int + 1, acc2),
                },
            decreases pack.resources@.len() - j,
        {
            assert(rs[j as int] == pack.resources@[j as int]@);
            match emit_resource(root, &pack.resources[j], target) {
                Ok((path, bytes)) => {
                    tree.insert(path, bytes);
                },
                Err(e) => {
                    return Err(e);
                },
            }
            j = j + 1;
        }
        i = i + 1;
    }
    Ok(tree)
}

// ---------------------------------------------------------------------------
// Laws of the emitted bytes
// ---------------------------------------------------------------------------
proof fn lemma_encode_concat(a: Seq<char>, b: Seq<char>)
    ensures
        encode_utf8(a + b) == encode_utf8(a) + encode_utf8(b),
    decreases a.len(),
{
    if a.len() > 0 {
        assert((a + b).drop_first() =~= a.drop_first() + b);
        assert((a + b)[0] == a[0]);
        lemma_encode_concat(a.drop_first(), b);
        assert(encode_utf8(a + b) =~= encode_utf8(a) + encode_utf8(b));
    } else {
        assert(a + b =~= b);
        assert(encode_utf8(a) + encode_utf8(b) =~= encode_utf8(b));
    }
}

proof fn lemma_encode_newline()
    ensures
        encode_utf8(seq!['\n']) == seq![10u8],
{
    let nl: u32 = 10;
    assert(('\n' as u32) == nl);
    assert(nl & 0x7F == 10) by (bit_vector)
        requires
            nl == 10,
    ;
    assert(vstd::utf8::leading_byte_width_1(nl) == 10u8);
    assert(vstd::utf8::encode_scalar(nl) =~= seq![10u8]);
    assert(seq!['\n'].drop_first() =~= Seq::<char>::empty());
    assert(seq!['\n'][0] as u32 == nl);
    assert(encode_utf8(Seq::<char>::empty()) =~= Seq::<u8>::empty());
    assert(encode_utf8(seq!['\n']) =~= seq![10u8]);
}

/// A function body ends every line with LF: one with at least one line ends
/// with the byte 10, on every host.
pub proof fn law_function_body_ends_with_lf(statements: Seq<CommandV>)
    requires
        statements.len() > 0,
    ensures
        body_bytes(BodyV::Commands { statements }).len() > 0,
        body_bytes(BodyV::Commands { statements }).last() == 10u8,
{
    let CommandV::Text { command, .. } = statements.last();
    let pre = lines_text(statements.drop_last()) + command;
    assert(lines_text(statements) == pre + seq!['\n']);
    lemma_encode_concat(pre, seq!['\n']);
    lemma_encode_newline();
}

/// A JSON body ends with one LF.
pub proof fn law_json_body_ends_with_lf(value: JVal)
    ensures
        body_bytes(BodyV::Json { value }).len() > 0,
        body_bytes(BodyV::Json { value }).last() == 10u8,
{
}

proof fn lemma_tree_resources_keep(
    root: Seq<char>,
    rs: Seq<ResourceV>,
    t: TargetV,
    i: int,
    acc: Seq<(Seq<char>, Seq<u8>)>,
    k: Seq<char>,
)
    requires
        sorted_keys(acc),
    ensures
        tree_resources(root, rs, t, i, acc) matches Ok(r) ==> sorted_keys(r) && (tree_get(acc, k) is Some
            ==> tree_get(r, k) is Some),
    decreases rs.len() - i,
{
    if 0 <= i < rs.len() {
        match spec_emit_resource(root, rs[i], t) {
            Err(_) => {},
            Ok((path, bytes)) => {
                law_tree_insert(acc, path, bytes);
                assert(tree_get(tinsert(acc, path, bytes), k) == if k == path {
                    Some(bytes)
                } else {
                    tree_get(acc, k)
                });
                lemma_tree_resources_keep(root, rs, t, i + 1, tinsert(acc, path, bytes), k);
            },
        }
    }
}

proof fn lemma_tree_packs_mcmeta(packs: Seq<PackV>, t: TargetV, i: int, acc: Seq<(Seq<char>, Seq<u8>)>)
    requires
        sorted_keys(acc),
        0 <= i,
    ensures
        tree_packs(packs, t, i, acc) matches Ok(r) ==> sorted_keys(r) && ((tree_get(acc, "pack.mcmeta"@) is Some
            || i < packs.len()) ==> tree_get(r, "pack.mcmeta"@) is Some),
    decreases packs.len() - i,
{
    if i < packs.len() {
        let p = packs[i];
        match table_get(t.pack_kinds, p.kind) {
            None => {},
            Some(kind) => match spec_pack_format(t, p.kind) {
                None => {},
                Some(f) => {
                    let m = mcmeta_bytes(p.description, f);
                    let acc1 = tinsert(acc, "pack.mcmeta"@, m);
                    law_tree_insert(acc, "pack.mcmeta"@, m);
                    assert(tree_get(acc1, "pack.mcmeta"@) == Some(m));
                    lemma_tree_resources_keep(kind.root, p.resources, t, 0, acc1, "pack.mcmeta"@);
                    match tree_resources(kind.root, p.resources, t, 0, acc1) {
                        Err(_) => {},
                        Ok(acc2) => {
                            lemma_tree_packs_mcmeta(packs, t, i + 1, acc2);
                        },
                    }
                },
            },
        }
    }
}

/// An emitted tree lists each path once, in sorted order, and holds a
/// `pack.mcmeta` whenever the document has a pack.
pub proof fn law_file_tree_shape(ir: IrV, t: TargetV)
    ensures
        spec_file_tree(ir, t) matches Ok(r) ==> sorted_keys(r) && (ir.packs.len() > 0 ==> tree_get(
            r,
            "pack.mcmeta"@,
        ) is Some),
{
    lemma_tree_packs_mcmeta(ir.packs, t, 0, Seq::empty());
}

/// The zip of a tree is a function of the tree alone: the same tree gives the
/// same bytes.
pub proof fn law_zip_is_deterministic(t1: Seq<(Seq<char>, Seq<u8>)>, t2: Seq<(Seq<char>, Seq<u8>)>)
    requires
        t1 == t2,
    ensures
        spec_zip(t1) == spec_zip(t2),
{
}
} // verus!
