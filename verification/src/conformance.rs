//! The parts of the conformance runner that compute: reading a built zip back
//! into a path-to-bytes tree, and comparing a built tree with the expected
//! one. Running builds and reading directories is the caller's part.
use vstd::prelude::*;
use vstd::utf8::{decode_utf8, encode_utf8, valid_utf8};

use crate::emit::{
    central_entry, end_record, entries_view, le16, le32, local_entry, sat16, sat32, sorted_keys,
    spec_crc32, spec_zip, tinsert, tree_pos_from, zip_parts, FileTree, DOS_DATE, ZIP_VERSION,
};
use crate::text::seq_lt;
use crate::ir::strs_view;
use crate::text::{cat, owned};

verus! {

/// The little-endian `u16` at `off`, when two bytes are there.
pub open spec fn spec_u16_at(b: Seq<u8>, off: int) -> Option<u16> {
    if 0 <= off && off + 2 <= b.len() {
        Some((b[off] + 256 * b[off + 1]) as u16)
    } else {
        None
    }
}

/// The little-endian `u32` at `off`, when four bytes are there.
pub open spec fn spec_u32_at(b: Seq<u8>, off: int) -> Option<u32> {
    if 0 <= off && off + 4 <= b.len() {
        Some((b[off] + 256 * b[off + 1] + 65536 * b[off + 2] + 16777216 * b[off + 3]) as u32)
    } else {
        None
    }
}

/// Whether a local file header signature `PK\x03\x04` starts at `p`.
pub open spec fn local_sig_at(b: Seq<u8>, p: int) -> bool {
    0 <= p && p + 4 <= b.len() && b[p] == 0x50 && b[p + 1] == 0x4b && b[p + 2] == 3 && b[p + 3] == 4
}

pub open spec fn truncated_header() -> Seq<char> {
    "truncated local file header"@
}

/// The entries of a stored zip from offset `p` on, walking local file headers
/// in order and stopping at the first offset that holds none.
pub open spec fn read_from(b: Seq<u8>, p: int, acc: Seq<(Seq<char>, Seq<u8>)>) -> Result<
    Seq<(Seq<char>, Seq<u8>)>,
    Seq<char>,
>
    decreases b.len() - p,
{
    if !local_sig_at(b, p) {
        Ok(acc)
    } else {
        match (spec_u16_at(b, p + 8), spec_u32_at(b, p + 18), spec_u16_at(b, p + 26), spec_u16_at(b, p + 28)) {
            (Some(method), Some(comp), Some(nlen), Some(elen)) => if method != 0 {
                Err("zip entry is compressed; the emitter must use STORE"@)
            } else {
                let name_start = p + 30;
                if name_start + nlen > b.len() {
                    Err("truncated entry name"@)
                } else {
                    let name = b.subrange(name_start, name_start + nlen);
                    let data_start = name_start + nlen + elen;
                    if !valid_utf8(name) {
                        Err("entry name is not UTF-8"@)
                    } else if data_start + comp > b.len() {
                        Err("truncated entry data"@)
                    } else {
                        read_from(
                            b,
                            data_start + comp,
                            tinsert(acc, decode_utf8(name), b.subrange(data_start, data_start + comp)),
                        )
                    }
                }
            },
            (Some(method), _, _, _) => if method != 0 {
                Err("zip entry is compressed; the emitter must use STORE"@)
            } else {
                Err(truncated_header())
            },
            _ => Err(truncated_header()),
        }
    }
}

/// A stored zip read back into a path-to-bytes tree.
pub open spec fn spec_read_store_zip(b: Seq<u8>) -> Result<Seq<(Seq<char>, Seq<u8>)>, Seq<char>> {
    read_from(b, 0, Seq::empty())
}

/// The little-endian `u16` at `offset`.
pub fn u16_at(bytes: &[u8], offset: usize) -> (r: Option<u16>)
    ensures
        r == spec_u16_at(bytes@, offset as int),
{
    if offset <= bytes.len() && bytes.len() - offset >= 2 {
        Some(bytes[offset] as u16 + 256 * (bytes[offset + 1] as u16))
    } else {
        None
    }
}

/// The little-endian `u32` at `offset`.
pub fn u32_at(bytes: &[u8], offset: usize) -> (r: Option<u32>)
    ensures
        r == spec_u32_at(bytes@, offset as int),
{
    if offset <= bytes.len() && bytes.len() - offset >= 4 {
        Some(bytes[offset] as u32 + 256 * (bytes[offset + 1] as u32) + 65536 * (bytes[offset + 2] as u32)
            + 16777216 * (bytes[offset + 3] as u32))
    } else {
        None
    }
}

/// `std::str::from_utf8`: the text of the bytes when they are valid UTF-8.
#[verifier::external_body]
fn utf8_text(bytes: &[u8]) -> (r: Option<String>)
    ensures
        r matches Some(s) ==> valid_utf8(bytes@) && s@ == decode_utf8(bytes@),
        r is None ==> !valid_utf8(bytes@),
{
    std::str::from_utf8(bytes).ok().map(|s| s.to_string())
}

fn copy_range(bytes: &[u8], from: usize, to: usize) -> (r: Vec<u8>)
    requires
        from <= to <= bytes@.len(),
    ensures
        r@ == bytes@.subrange(from as int, to as int),
{
    let mut out: Vec<u8> = Vec::new();
    let mut i = from;
    while i < to
        invariant
            from <= i <= to <= bytes@.len(),
            out@ == bytes@.subrange(from as int, i as int),
        decreases to - i,
    {
        out.push(bytes[i]);
        i = i + 1;
        assert(out@ =~= bytes@.subrange(from as int, i as int));
    }
    out
}

/// Reads a stored (uncompressed) zip back into a path-to-bytes tree, walking
/// local file headers in order.
pub fn read_store_zip(bytes: &[u8]) -> (r: Result<FileTree, String>)
    ensures
        (match r {
            Ok(t) => Ok(t@),
            Err(e) => Err(e@),
        }) == spec_read_store_zip(bytes@),
{
    let mut tree = FileTree::new();
    let mut p: usize = 0;
    let n = bytes.len();
    while p <= n && n - p >= 4 && bytes[p] == 0x50 && bytes[p + 1] == 0x4b && bytes[p + 2] == 3 && bytes[p + 3] == 4
        invariant
            p <= n,
            n == bytes@.len(),
            spec_read_store_zip(bytes@) == read_from(bytes@, p as int, tree@),
        decreases n - p,
    {
        proof {
            reveal_strlit("truncated local file header");
        }
        if n - p < 10 {
            return Err(owned("truncated local file header"));
        }
        let method = match u16_at(bytes, p + 8) {
            Some(m) => m,
            None => {
                return Err(owned("truncated local file header"));
            },
        };
        if method != 0 {
            return Err(owned("zip entry is compressed; the emitter must use STORE"));
        }
        if n - p < 30 {
            return Err(owned("truncated local file header"));
        }
        let comp = match u32_at(bytes, p + 18) {
            Some(c) => c,
            None => {
                return Err(owned("truncated local file header"));
            },
        };
        let nlen = match u16_at(bytes, p + 26) {
            Some(c) => c,
            None => {
                return Err(owned("truncated local file header"));
            },
        };
        let elen = match u16_at(bytes, p + 28) {
            Some(c) => c,
            None => {
                return Err(owned("truncated local file header"));
            },
        };
        let name_start = p + 30;
        if nlen as usize > n - name_start {
            return Err(owned("truncated entry name"));
        }
        let name_end = name_start + nlen as usize;
        let name = match utf8_text(vstd::slice::slice_subrange(bytes, name_start, name_end)) {
            Some(s) => s,
            None => {
                return Err(owned("entry name is not UTF-8"));
            },
        };
        if elen as usize > n - name_end || comp as usize > n - name_end - elen as usize {
            return Err(owned("truncated entry data"));
        }
        let data_start = name_end + elen as usize;
        let data_end = data_start + comp as usize;
        let data = copy_range(bytes, data_start, data_end);
        tree.insert(name, data);
        p = data_end;
    }
    Ok(tree)
}


/// The paths of a tree, in order.
pub open spec fn tree_keys(t: Seq<(Seq<char>, Seq<u8>)>) -> Seq<Seq<char>> {
    Seq::new(t.len(), |i: int| t[i].0)
}

/// How `{:?}` shows a list of strings.
pub uninterp spec fn debug_list(items: Seq<Seq<char>>) -> Seq<char>;

/// The text of bytes with each invalid UTF-8 sequence replaced by U+FFFD.
pub uninterp spec fn lossy_text(bytes: Seq<u8>) -> Seq<char>;

/// `{:?}` of a list of strings, through `format!`. The contract names the
/// text without stating the quoting and escaping.
#[verifier::external_body]
fn debug_strings(items: &Vec<String>) -> (r: String)
    ensures
        r@ == debug_list(strs_view(items@)),
{
    format!("{:?}", items)
}

/// `String::from_utf8_lossy`: valid UTF-8 is read as it is; the replacement
/// of invalid sequences is named, not stated.
#[verifier::external_body]
fn lossy(bytes: &[u8]) -> (r: String)
    ensures
        r@ == lossy_text(bytes@),
        valid_utf8(bytes@) ==> r@ == decode_utf8(bytes@),
{
    String::from_utf8_lossy(bytes).into_owned()
}

/// `s` without its trailing whitespace.
pub open spec fn trim_end(s: Seq<char>) -> Seq<char> {
    s.take(crate::command::trail_to(s, 0, s.len() as int))
}

fn trimmed_end(s: &str) -> (r: String)
    ensures
        r@ == trim_end(s@),
{
    let cs = crate::text::chars_of(s);
    let mut hi: usize = cs.len();
    while hi > 0 && crate::text::is_whitespace(cs[hi - 1])
        invariant
            hi <= cs@.len(),
            cs@ == s@,
            crate::command::trail_to(cs@, 0, cs@.len() as int) == crate::command::trail_to(cs@, 0, hi as int),
        decreases hi,
    {
        hi = hi - 1;
    }
    let r = crate::text::string_of(&cs, 0, hi);
    assert(r@ =~= trim_end(s@));
    r
}

/// The first entry of `e` from index `i` on whose bytes differ from the
/// entry of the same path in `p`.
pub open spec fn first_difference(e: Seq<(Seq<char>, Seq<u8>)>, p: Seq<(Seq<char>, Seq<u8>)>, i: int) -> Result<
    (),
    Seq<char>,
>
    decreases e.len() - i,
{
    if i < 0 || i >= e.len() {
        Ok(())
    } else {
        match crate::emit::tree_get(p, e[i].0) {
            Some(have) => if have != e[i].1 {
                Err(e[i].0 + " differs:\n    expected: "@ + trim_end(lossy_text(e[i].1))
                    + "\n    built:    "@ + trim_end(lossy_text(have)))
            } else {
                first_difference(e, p, i + 1)
            },
            None => first_difference(e, p, i + 1),
        }
    }
}

/// A built tree against the expected one: the same paths in the same order,
/// and the same bytes at each.
pub open spec fn spec_compare(e: Seq<(Seq<char>, Seq<u8>)>, p: Seq<(Seq<char>, Seq<u8>)>) -> Result<
    (),
    Seq<char>,
> {
    if tree_keys(e) != tree_keys(p) {
        Err("file set differs: expected "@ + debug_list(tree_keys(e)) + ", built "@ + debug_list(
            tree_keys(p),
        ))
    } else {
        first_difference(e, p, 0)
    }
}

fn same_strings(a: &Vec<String>, b: &Vec<String>) -> (r: bool)
    ensures
        r == (strs_view(a@) == strs_view(b@)),
{
    if a.len() != b.len() {
        assert(strs_view(a@).len() != strs_view(b@).len());
        return false;
    }
    let mut i: usize = 0;
    while i < a.len()
        invariant
            i <= a@.len() == b@.len(),
            forall|j: int| 0 <= j < i ==> a@[j]@ == b@[j]@,
        decreases a@.len() - i,
    {
        if !crate::text::str_eq(a[i].as_str(), b[i].as_str()) {
            assert(strs_view(a@)[i as int] != strs_view(b@)[i as int]);
            return false;
        }
        i = i + 1;
    }
    assert(strs_view(a@) =~= strs_view(b@));
    true
}

fn same_bytes(a: &Vec<u8>, b: &Vec<u8>) -> (r: bool)
    ensures
        r == (a@ == b@),
{
    if a.len() != b.len() {
        return false;
    }
    let mut i: usize = 0;
    while i < a.len()
        invariant
            i <= a@.len() == b@.len(),
            forall|j: int| 0 <= j < i ==> a@[j] == b@[j],
        decreases a@.len() - i,
    {
        if a[i] != b[i] {
            return false;
        }
        i = i + 1;
    }
    assert(a@ =~= b@);
    true
}

/// Compares a built tree with the expected one; the error says what differs.
pub fn compare(expected: &FileTree, produced: &FileTree) -> (r: Result<(), String>)
    ensures
        (match r {
            Ok(()) => Ok(()),
            Err(m) => Err(m@),
        }) == spec_compare(expected@, produced@),
{
    let want = expected.keys();
    let got = produced.keys();
    assert(strs_view(want@) =~= tree_keys(expected@));
    assert(strs_view(got@) =~= tree_keys(produced@));
    if !same_strings(&want, &got) {
        let mut m = cat("file set differs: expected ", debug_strings(&want).as_str());
        m.append(", built ");
        m.append(debug_strings(&got).as_str());
        return Err(m);
    }
    let entries = expected.entries();
    let ghost e = expected@;
    let mut i: usize = 0;
    while i < entries.len()
        invariant
            i <= entries@.len(),
            e == entries_view(entries@),
            e == expected@,
            first_difference(e, produced@, 0) == first_difference(e, produced@, i as int),
            spec_compare(expected@, produced@) == first_difference(e, produced@, 0),
        decreases entries@.len() - i,
    {
        let name = entries[i].0.as_str();
        let want_bytes = &entries[i].1;
        match produced.get(name) {
            Some(have) => {
                if !same_bytes(want_bytes, have) {
                    let mut m = cat(name, " differs:\n    expected: ");
                    m.append(trimmed_end(lossy(want_bytes.as_slice()).as_str()).as_str());
                    m.append("\n    built:    ");
                    m.append(trimmed_end(lossy(have.as_slice()).as_str()).as_str());
                    return Err(m);
                }
            },
            None => {},
        }
        i = i + 1;
    }
    Ok(())
}

// ---------------------------------------------------------------------------
// Reading back what the emitter wrote
// ---------------------------------------------------------------------------
/// Every entry small enough that its header records its sizes exactly: the
/// data under 4 GiB, the UTF-8 path under 64 KiB.
pub open spec fn fits_zip(t: Seq<(Seq<char>, Seq<u8>)>) -> bool {
    forall|i: int|
        0 <= i < t.len() ==> (#[trigger] t[i]).1.len() <= u32::MAX && encode_utf8(t[i].0).len()
            <= u16::MAX
}

proof fn lemma_u16_read(s: Seq<u8>, off: int, v: u16)
    requires
        0 <= off,
        off + 2 <= s.len(),
        s.subrange(off, off + 2) == le16(v),
    ensures
        spec_u16_at(s, off) == Some(v),
{
    assert(s[off] == s.subrange(off, off + 2)[0]);
    assert(s[off + 1] == s.subrange(off, off + 2)[1]);
}

proof fn lemma_u32_read(s: Seq<u8>, off: int, v: u32)
    requires
        0 <= off,
        off + 4 <= s.len(),
        s.subrange(off, off + 4) == le32(v),
    ensures
        spec_u32_at(s, off) == Some(v),
{
    let lo = (v % 65536) as u16;
    let hi = (v / 65536) as u16;
    assert(s.subrange(off, off + 2) =~= s.subrange(off, off + 4).subrange(0, 2));
    assert(s.subrange(off + 2, off + 4) =~= s.subrange(off, off + 4).subrange(2, 4));
    assert(le32(v).subrange(0, 2) =~= le16(lo));
    assert(le32(v).subrange(2, 4) =~= le16(hi));
    lemma_u16_read(s, off, lo);
    lemma_u16_read(s, off + 2, hi);
    assert(s[off] + 256 * s[off + 1] == lo);
    assert(s[off + 2] + 256 * s[off + 3] == hi);
}

/// Where the fields of a local entry lie.
proof fn lemma_local_fields(name: Seq<u8>, data: Seq<u8>)
    requires
        name.len() <= u16::MAX,
        data.len() <= u32::MAX,
    ensures
        ({
            let e = local_entry(name, data);
            let nl = name.len() as int;
            &&& e.len() == 30 + nl + data.len()
            &&& e[0] == 0x50 && e[1] == 0x4b && e[2] == 3 && e[3] == 4
            &&& e.subrange(8, 10) == le16(0)
            &&& e.subrange(18, 22) == le32(data.len() as u32)
            &&& e.subrange(26, 28) == le16(name.len() as u16)
            &&& e.subrange(28, 30) == le16(0)
            &&& e.subrange(30, 30 + nl) == name
            &&& e.subrange(30 + nl, 30 + nl + data.len()) == data
        }),
{
    reveal(local_entry);
    let e = local_entry(name, data);
    let size = sat32(data.len() as int);
    let nl = name.len() as int;
    let head = le32(0x0403_4b50) + le16(ZIP_VERSION) + le16(0) + le16(0) + le16(0) + le16(DOS_DATE)
        + le32(spec_crc32(data)) + le32(size) + le32(size) + le16(sat16(nl)) + le16(0);
    assert(e == head + name + data);
    assert(head.len() == 30);
    assert(head.subrange(8, 10) =~= le16(0));
    assert(head.subrange(18, 22) =~= le32(size));
    assert(head.subrange(26, 28) =~= le16(sat16(nl)));
    assert(head.subrange(28, 30) =~= le16(0));
    assert(e.subrange(8, 10) =~= head.subrange(8, 10));
    assert(e.subrange(18, 22) =~= head.subrange(18, 22));
    assert(e.subrange(26, 28) =~= head.subrange(26, 28));
    assert(e.subrange(28, 30) =~= head.subrange(28, 30));
    assert(e.subrange(30, 30 + nl) =~= name);
    assert(e.subrange(30 + nl, 30 + nl + data.len()) =~= data);
    assert(e[0] == head[0] && e[1] == head[1] && e[2] == head[2] && e[3] == head[3]);
}

/// The local entries of fewer entries are a prefix of those of more.
proof fn lemma_local_prefix(t: Seq<(Seq<char>, Seq<u8>)>, k: int, m: int)
    requires
        0 <= k <= m <= t.len(),
    ensures
        zip_parts(t, k).0.len() <= zip_parts(t, m).0.len(),
        zip_parts(t, m).0.subrange(0, zip_parts(t, k).0.len() as int) == zip_parts(t, k).0,
    decreases m - k,
{
    if k < m {
        lemma_local_prefix(t, k, m - 1);
        let a = zip_parts(t, k).0;
        let b = zip_parts(t, m - 1).0;
        let c = zip_parts(t, m).0;
        assert(c.subrange(0, b.len() as int) =~= b);
        assert(c.subrange(0, a.len() as int) =~= b.subrange(0, a.len() as int));
    } else {
        assert(zip_parts(t, m).0.subrange(0, zip_parts(t, m).0.len() as int) =~= zip_parts(t, m).0);
    }
}

/// A non-empty central directory starts with its signature, `PK\x01\x02`.
proof fn lemma_central_start(t: Seq<(Seq<char>, Seq<u8>)>, n: int)
    requires
        1 <= n <= t.len(),
    ensures
        zip_parts(t, n).1.len() >= 4,
        zip_parts(t, n).1[2] == 1,
    decreases n,
{
    let name = encode_utf8(t[n - 1].0);
    let data = t[n - 1].1;
    reveal(central_entry);
    let ce = central_entry(name, data, sat32(zip_parts(t, n - 1).0.len() as int));
    assert(ce[2] == le32(0x0201_4b50)[2]);
    if n > 1 {
        lemma_central_start(t, n - 1);
    }
}

/// In a sorted tree, adding the next entry after the first `k` appends it.
proof fn lemma_append_sorted(t: Seq<(Seq<char>, Seq<u8>)>, k: int)
    requires
        sorted_keys(t),
        0 <= k < t.len(),
    ensures
        tinsert(t.take(k), t[k].0, t[k].1) == t.take(k + 1),
{
    let a = t.take(k);
    lemma_pos_to_end(a, t[k].0, 0, t);
    assert(a.insert(k, (t[k].0, t[k].1)) =~= t.take(k + 1));
}

proof fn lemma_pos_to_end(
    a: Seq<(Seq<char>, Seq<u8>)>,
    key: Seq<char>,
    from: int,
    t: Seq<(Seq<char>, Seq<u8>)>,
)
    requires
        sorted_keys(t),
        0 <= from <= a.len(),
        a.len() < t.len(),
        a == t.take(a.len() as int),
        key == t[a.len() as int].0,
    ensures
        tree_pos_from(a, key, from) == a.len(),
    decreases a.len() - from,
{
    if from < a.len() {
        assert(a[from] == t[from]);
        assert(seq_lt(t[from].0, t[a.len() as int].0));
        lemma_pos_to_end(a, key, from + 1, t);
    }
}

/// One stored entry read at `p`: the reader moves past it and adds it.
proof fn lemma_read_step(
    z: Seq<u8>,
    p: int,
    acc: Seq<(Seq<char>, Seq<u8>)>,
    name_chars: Seq<char>,
    data: Seq<u8>,
)
    requires
        local_sig_at(z, p),
        encode_utf8(name_chars).len() <= u16::MAX,
        data.len() <= u32::MAX,
        spec_u16_at(z, p + 8) == Some(0u16),
        spec_u32_at(z, p + 18) == Some(data.len() as u32),
        spec_u16_at(z, p + 26) == Some(encode_utf8(name_chars).len() as u16),
        spec_u16_at(z, p + 28) == Some(0u16),
        p + 30 + encode_utf8(name_chars).len() + data.len() <= z.len(),
        z.subrange(p + 30, p + 30 + encode_utf8(name_chars).len()) == encode_utf8(name_chars),
        z.subrange(p + 30 + encode_utf8(name_chars).len(), p + 30 + encode_utf8(name_chars).len() + data.len())
            == data,
    ensures
        read_from(z, p, acc) == read_from(
            z,
            p + 30 + encode_utf8(name_chars).len() + data.len(),
            tinsert(acc, name_chars, data),
        ),
{
    vstd::utf8::encode_utf8_valid_utf8(name_chars);
    vstd::utf8::encode_utf8_decode_utf8(name_chars);
}

/// The fields of a local entry found at `p` in `z`.
proof fn lemma_fields_in(z: Seq<u8>, p: int, name: Seq<u8>, data: Seq<u8>)
    requires
        name.len() <= u16::MAX,
        data.len() <= u32::MAX,
        0 <= p,
        p + local_entry(name, data).len() <= z.len(),
        z.subrange(p, p + local_entry(name, data).len()) == local_entry(name, data),
    ensures
        ({
            let nl = name.len() as int;
            &&& local_entry(name, data).len() == 30 + nl + data.len()
            &&& local_sig_at(z, p)
            &&& spec_u16_at(z, p + 8) == Some(0u16)
            &&& spec_u32_at(z, p + 18) == Some(data.len() as u32)
            &&& spec_u16_at(z, p + 26) == Some(nl as u16)
            &&& spec_u16_at(z, p + 28) == Some(0u16)
            &&& z.subrange(p + 30, p + 30 + nl) == name
            &&& z.subrange(p + 30 + nl, p + 30 + nl + data.len()) == data
        }),
{
    let e = local_entry(name, data);
    lemma_local_fields(name, data);
    let nl = name.len() as int;
    let q = p + e.len();
    assert(z.subrange(p + 8, p + 10) =~= e.subrange(8, 10));
    assert(z.subrange(p + 18, p + 22) =~= e.subrange(18, 22));
    assert(z.subrange(p + 26, p + 28) =~= e.subrange(26, 28));
    assert(z.subrange(p + 28, p + 30) =~= e.subrange(28, 30));
    assert(z.subrange(p + 30, p + 30 + nl) =~= e.subrange(30, 30 + nl));
    assert(z.subrange(p + 30 + nl, q) =~= e.subrange(30 + nl, 30 + nl + data.len()));
    lemma_u16_read(z, p + 8, 0);
    lemma_u32_read(z, p + 18, data.len() as u32);
    lemma_u16_read(z, p + 26, name.len() as u16);
    lemma_u16_read(z, p + 28, 0);
    assert(z[p] == e[0] && z[p + 1] == e[1] && z[p + 2] == e[2] && z[p + 3] == e[3]);
}

/// Entry `k` of a written zip lies at the end of the entries before it.
proof fn lemma_entry_bytes(t: Seq<(Seq<char>, Seq<u8>)>, k: int)
    requires
        0 <= k < t.len(),
    ensures
        ({
            let z = spec_zip(t);
            let p = zip_parts(t, k).0.len() as int;
            let e = local_entry(encode_utf8(t[k].0), t[k].1);
            &&& zip_parts(t, k + 1).0.len() == p + e.len()
            &&& p + e.len() <= z.len()
            &&& z.subrange(p, p + e.len()) == e
        }),
{
    let n = t.len() as int;
    let z = spec_zip(t);
    let (local, central) = zip_parts(t, n);
    let p = zip_parts(t, k).0.len() as int;
    let e = local_entry(encode_utf8(t[k].0), t[k].1);
    lemma_local_prefix(t, k + 1, n);
    let next = zip_parts(t, k + 1).0;
    assert(next == zip_parts(t, k).0 + e);
    let q = p + e.len();
    assert(z == local + (central + end_record(n, central.len() as int, local.len() as int)));
    assert(z.subrange(0, next.len() as int) =~= local.subrange(0, next.len() as int));
    assert(z.subrange(p, q) =~= next.subrange(p, q));
}

/// The facts the reader needs about entry `k` of a written zip.
proof fn lemma_entry_at(t: Seq<(Seq<char>, Seq<u8>)>, k: int)
    requires
        fits_zip(t),
        0 <= k < t.len(),
    ensures
        ({
            let z = spec_zip(t);
            let p = zip_parts(t, k).0.len() as int;
            let name = encode_utf8(t[k].0);
            let data = t[k].1;
            let nl = name.len() as int;
            &&& zip_parts(t, k + 1).0.len() == p + 30 + nl + data.len()
            &&& local_sig_at(z, p)
            &&& name.len() <= u16::MAX
            &&& data.len() <= u32::MAX
            &&& spec_u16_at(z, p + 8) == Some(0u16)
            &&& spec_u32_at(z, p + 18) == Some(data.len() as u32)
            &&& spec_u16_at(z, p + 26) == Some(nl as u16)
            &&& spec_u16_at(z, p + 28) == Some(0u16)
            &&& p + 30 + nl + data.len() <= z.len()
            &&& z.subrange(p + 30, p + 30 + nl) == name
            &&& z.subrange(p + 30 + nl, p + 30 + nl + data.len()) == data
        }),
{
    assert(fits_zip(t) ==> t[k].1.len() <= u32::MAX && encode_utf8(t[k].0).len() <= u16::MAX);
    lemma_entry_bytes(t, k);
    lemma_fields_in(spec_zip(t), zip_parts(t, k).0.len() as int, encode_utf8(t[k].0), t[k].1);
}

/// After the last entry the reader stops.
proof fn lemma_read_end(t: Seq<(Seq<char>, Seq<u8>)>)
    ensures
        !local_sig_at(spec_zip(t), zip_parts(t, t.len() as int).0.len() as int),
{
    let n = t.len() as int;
    let z = spec_zip(t);
    let (local, central) = zip_parts(t, n);
    let p = local.len() as int;
    let e = end_record(n, central.len() as int, local.len() as int);
    assert(z == local + (central + e));
    if n > 0 {
        lemma_central_start(t, n);
        assert(z[p + 2] == central[2]);
    } else {
        assert(e[2] == le32(0x0605_4b50)[2]);
        assert(z[p + 2] == e[2]);
    }
}

proof fn lemma_read_from_zip(t: Seq<(Seq<char>, Seq<u8>)>, k: int)
    requires
        sorted_keys(t),
        fits_zip(t),
        0 <= k <= t.len(),
    ensures
        read_from(spec_zip(t), zip_parts(t, k).0.len() as int, t.take(k)) == Ok::<
            Seq<(Seq<char>, Seq<u8>)>,
            Seq<char>,
        >(t),
    decreases t.len() - k,
{
    let z = spec_zip(t);
    if k == t.len() {
        lemma_read_end(t);
        assert(t.take(k) =~= t);
    } else {
        lemma_entry_at(t, k);
        let p = zip_parts(t, k).0.len() as int;
        lemma_read_step(z, p, t.take(k), t[k].0, t[k].1);
        lemma_append_sorted(t, k);
        lemma_read_from_zip(t, k + 1);
    }
}

/// Reading back a zip the emitter wrote gives the tree it was written from,
/// entry for entry, wherever each entry's sizes fit its header.
pub proof fn law_read_back_zip(t: Seq<(Seq<char>, Seq<u8>)>)
    requires
        sorted_keys(t),
        fits_zip(t),
    ensures
        spec_read_store_zip(spec_zip(t)) == Ok::<Seq<(Seq<char>, Seq<u8>)>, Seq<char>>(t),
{
    lemma_read_from_zip(t, 0);
    assert(t.take(0) =~= Seq::<(Seq<char>, Seq<u8>)>::empty());
}

proof fn lemma_local_signature(name: Seq<u8>, data: Seq<u8>)
    ensures
        local_entry(name, data).len() >= 4,
        local_entry(name, data).subrange(0, 4) == seq![0x50u8, 0x4bu8, 3u8, 4u8],
{
    reveal(local_entry);
    let e = local_entry(name, data);
    let rest = le16(ZIP_VERSION) + le16(0) + le16(0) + le16(0) + le16(DOS_DATE) + le32(spec_crc32(data))
        + le32(sat32(data.len() as int)) + le32(sat32(data.len() as int)) + le16(sat16(name.len() as int))
        + le16(0) + name + data;
    assert(e =~= le32(0x0403_4b50) + rest);
    assert(le32(0x0403_4b50) =~= seq![0x50u8, 0x4bu8, 3u8, 4u8]);
    assert(e.subrange(0, 4) =~= le32(0x0403_4b50));
}

/// A zip ends with its end-of-central-directory record, whose signature
/// `PK\x05\x06` stands 22 bytes from the end; a zip of a non-empty tree
/// starts with a local file header, `PK\x03\x04`.
pub proof fn law_zip_framing(t: Seq<(Seq<char>, Seq<u8>)>)
    ensures
        spec_zip(t).len() >= 22,
        spec_zip(t).subrange(spec_zip(t).len() - 22, spec_zip(t).len() - 18) == seq![0x50u8, 0x4bu8, 5u8, 6u8],
        t.len() > 0 ==> spec_zip(t).subrange(0, 4) == seq![0x50u8, 0x4bu8, 3u8, 4u8],
{
    let n = t.len() as int;
    let z = spec_zip(t);
    let (local, central) = zip_parts(t, n);
    let e = end_record(n, central.len() as int, local.len() as int);
    assert(z == local + central + e);
    assert(e.len() == 22);
    assert(le32(0x0605_4b50) =~= seq![0x50u8, 0x4bu8, 5u8, 6u8]);
    assert(e.subrange(0, 4) =~= le32(0x0605_4b50));
    assert(z.subrange(z.len() - 22, z.len() - 18) =~= e.subrange(0, 4));
    if n > 0 {
        lemma_local_prefix(t, 1, n);
        let first = zip_parts(t, 1).0;
        lemma_local_signature(encode_utf8(t[0].0), t[0].1);
        assert(zip_parts(t, 0).0 == Seq::<u8>::empty());
        assert(first == zip_parts(t, 0).0 + local_entry(encode_utf8(t[0].0), t[0].1));
        assert(first =~= local_entry(encode_utf8(t[0].0), t[0].1));
        assert(z.subrange(0, 4) =~= first.subrange(0, 4)) by {
            assert(local.subrange(0, first.len() as int) == first);
        }
    }
}

/// A non-empty central directory starts with the signature `PK\x01\x02`.
proof fn lemma_central_signature(t: Seq<(Seq<char>, Seq<u8>)>, n: int)
    requires
        1 <= n <= t.len(),
    ensures
        zip_parts(t, n).1.len() >= 4,
        zip_parts(t, n).1.subrange(0, 4) == seq![0x50u8, 0x4bu8, 1u8, 2u8],
    decreases n,
{
    let name = encode_utf8(t[n - 1].0);
    let data = t[n - 1].1;
    reveal(central_entry);
    let prev = zip_parts(t, n - 1).1;
    let ce = central_entry(name, data, sat32(zip_parts(t, n - 1).0.len() as int));
    assert(le32(0x0201_4b50) =~= seq![0x50u8, 0x4bu8, 1u8, 2u8]);
    assert(ce.subrange(0, 4) =~= le32(0x0201_4b50));
    if n > 1 {
        lemma_central_signature(t, n - 1);
        assert((prev + ce).subrange(0, 4) =~= prev.subrange(0, 4));
    } else {
        assert(prev == Seq::<u8>::empty());
        assert((prev + ce).subrange(0, 4) =~= ce.subrange(0, 4));
    }
}

/// The end-of-central-directory record locates the central directory: its
/// offset field (at byte 16 of the record) plus its size field (at byte 12)
/// is where the record itself begins, and in the zip of a non-empty tree the
/// offset lands on a central directory header, `PK\x01\x02`.
pub proof fn law_zip_end_locates_central(t: Seq<(Seq<char>, Seq<u8>)>)
    requires
        spec_zip(t).len() <= u32::MAX,
    ensures
        ({
            let z = spec_zip(t);
            let e = z.len() - 22;
            &&& e >= 0
            &&& spec_u32_at(z, e + 16) is Some
            &&& spec_u32_at(z, e + 12) is Some
            &&& spec_u32_at(z, e + 16)->0 + spec_u32_at(z, e + 12)->0 == e
            &&& t.len() > 0 ==> z.subrange(
                spec_u32_at(z, e + 16)->0 as int,
                spec_u32_at(z, e + 16)->0 + 4,
            ) == seq![0x50u8, 0x4bu8, 1u8, 2u8]
        }),
{
    let n = t.len() as int;
    let z = spec_zip(t);
    let (local, central) = zip_parts(t, n);
    let rec = end_record(n, central.len() as int, local.len() as int);
    assert(z == local + central + rec);
    assert(rec.len() == 22);
    let e = z.len() - 22;
    assert(e == local.len() + central.len());
    assert(sat32(local.len() as int) == local.len());
    assert(sat32(central.len() as int) == central.len());
    assert(rec.subrange(12, 16) =~= le32(sat32(central.len() as int)));
    assert(rec.subrange(16, 20) =~= le32(sat32(local.len() as int)));
    assert(z.subrange(e + 12, e + 16) =~= rec.subrange(12, 16));
    assert(z.subrange(e + 16, e + 20) =~= rec.subrange(16, 20));
    lemma_u32_read(z, e + 12, sat32(central.len() as int));
    lemma_u32_read(z, e + 16, sat32(local.len() as int));
    if n > 0 {
        lemma_central_signature(t, n);
        let o = local.len() as int;
        assert(z.subrange(o, o + 4) =~= central.subrange(0, 4));
    }
}

// ---------------------------------------------------------------------------
// The shape of the suite
// ---------------------------------------------------------------------------
/// What a case directory holds, as the caller found it.
#[derive(Debug)]
pub struct CaseFiles {
    pub name: String,
    pub has_input: bool,
    pub has_target: bool,
    pub has_readme: bool,
    pub has_tree: bool,
    pub has_diagnostics: bool,
}

pub struct CaseFilesV {
    pub name: Seq<char>,
    pub has_input: bool,
    pub has_target: bool,
    pub has_readme: bool,
    pub has_tree: bool,
    pub has_diagnostics: bool,
}

impl View for CaseFiles {
    type V = CaseFilesV;

    open spec fn view(&self) -> CaseFilesV {
        CaseFilesV {
            name: self.name@,
            has_input: self.has_input,
            has_target: self.has_target,
            has_readme: self.has_readme,
            has_tree: self.has_tree,
            has_diagnostics: self.has_diagnostics,
        }
    }
}

/// `[line]` when `problem`, else nothing.
pub open spec fn when(problem: bool, line: Seq<char>) -> Seq<Seq<char>> {
    if problem {
        seq![line]
    } else {
        Seq::empty()
    }
}

/// What is wrong with one case: a missing required file, or not exactly one
/// expected result.
pub open spec fn case_problems(c: CaseFilesV) -> Seq<Seq<char>> {
    when(!c.has_input, c.name + ": missing input.json"@) + when(!c.has_target, c.name + ": missing target.json"@)
        + when(!c.has_readme, c.name + ": missing README.md"@) + when(
        !c.has_tree && !c.has_diagnostics,
        c.name + ": needs expected/ or expected-diagnostics.json"@,
    ) + when(
        c.has_tree && c.has_diagnostics,
        c.name + ": has both expected/ and expected-diagnostics.json; a case is one or the other"@,
    )
}

/// The problems of the cases from index `i` on, after `acc`.
pub open spec fn all_problems(cases: Seq<CaseFilesV>, i: int, acc: Seq<Seq<char>>) -> Seq<Seq<char>>
    decreases cases.len() - i,
{
    if i < 0 || i >= cases.len() {
        acc
    } else {
        all_problems(cases, i + 1, acc + case_problems(cases[i]))
    }
}

/// The structural check of the suite: how many cases there are, or every
/// problem found; a suite with no case is a problem.
pub open spec fn spec_check_cases(dir: Seq<char>, cases: Seq<CaseFilesV>) -> Result<int, Seq<Seq<char>>> {
    if cases.len() == 0 {
        Err(seq!["no cases in "@ + dir])
    } else {
        let p = all_problems(cases, 0, Seq::empty());
        if p.len() == 0 {
            Ok(cases.len() as int)
        } else {
            Err(p)
        }
    }
}

fn push_when(out: &mut Vec<String>, problem: bool, name: &str, what: &str)
    ensures
        strs_view(final(out)@) == strs_view(old(out)@) + when(problem, name@ + what@),
{
    let ghost before = strs_view(out@);
    if problem {
        out.push(cat(name, what));
        assert(strs_view(out@) =~= before + when(problem, name@ + what@));
    } else {
        assert(strs_view(out@) =~= before + when(problem, name@ + what@));
    }
}

/// Checks the structure of the suite from what each case directory holds.
pub fn check_cases(dir: &str, cases: &[CaseFiles]) -> (r: Result<usize, Vec<String>>)
    ensures
        (match r {
            Ok(n) => Ok(n as int),
            Err(p) => Err(strs_view(p@)),
        }) == spec_check_cases(dir@, Seq::new(cases@.len(), |i: int| cases@[i]@)),
{
    let ghost cv = Seq::new(cases@.len(), |i: int| cases@[i]@);
    if cases.len() == 0 {
        let mut p: Vec<String> = Vec::new();
        p.push(cat("no cases in ", dir));
        assert(strs_view(p@) =~= seq!["no cases in "@ + dir@]);
        return Err(p);
    }
    let mut problems: Vec<String> = Vec::new();
    let mut i: usize = 0;
    assert(strs_view(problems@) =~= Seq::<Seq<char>>::empty());
    while i < cases.len()
        invariant
            i <= cases@.len(),
            cv == Seq::new(cases@.len(), |i: int| cases@[i]@),
            all_problems(cv, 0, Seq::empty()) == all_problems(cv, i as int, strs_view(problems@)),
        decreases cases@.len() - i,
    {
        let c = &cases[i];
        let name = c.name.as_str();
        let ghost before = strs_view(problems@);
        push_when(&mut problems, !c.has_input, name, ": missing input.json");
        push_when(&mut problems, !c.has_target, name, ": missing target.json");
        push_when(&mut problems, !c.has_readme, name, ": missing README.md");
        push_when(&mut problems, !c.has_tree && !c.has_diagnostics, name, ": needs expected/ or expected-diagnostics.json");
        push_when(
            &mut problems,
            c.has_tree && c.has_diagnostics,
            name,
            ": has both expected/ and expected-diagnostics.json; a case is one or the other",
        );
        assert(cv[i as int] == c@);
        assert(strs_view(problems@) =~= before + case_problems(c@));
        i = i + 1;
    }
    if problems.len() == 0 {
        Ok(cases.len())
    } else {
        Err(problems)
    }
}

/// Case names in sorted order, each once.
pub fn sort_names(names: &[String]) -> (r: Vec<String>)
    ensures
        crate::sync::sorted_strs(strs_view(r@)),
        forall|x: Seq<char>| strs_view(r@).contains(x) <==> strs_view(names@).contains(x),
{
    let mut out: Vec<String> = Vec::new();
    let mut i: usize = 0;
    while i < names.len()
        invariant
            i <= names@.len(),
            crate::sync::sorted_strs(strs_view(out@)),
            forall|x: Seq<char>| strs_view(out@).contains(x) <==> strs_view(names@).take(i as int).contains(x),
        decreases names@.len() - i,
    {
        let ghost prefix = strs_view(names@).take(i as int);
        let ghost next = strs_view(names@).take(i + 1);
        assert(next =~= prefix.push(names@[i as int]@));
        crate::sync::insert_sorted(&mut out, crate::text::copy_string(&names[i]));
        assert forall|x: Seq<char>| strs_view(out@).contains(x) <==> next.contains(x) by {
            if next.contains(x) {
                let j = choose|j: int| 0 <= j < next.len() && next[j] == x;
                if j < prefix.len() {
                    assert(prefix[j] == x);
                }
            }
            if prefix.contains(x) {
                let j = choose|j: int| 0 <= j < prefix.len() && prefix[j] == x;
                assert(next[j] == x);
            }
            if x == names@[i as int]@ {
                assert(next[i as int] == x);
            }
        }
        i = i + 1;
    }
    assert(strs_view(names@).take(i as int) =~= strs_view(names@));
    out
}
} // verus!
