//! Target data extraction: the parts of regenerating a target's data file
//! that compute. From a pinned upstream snapshot's version record, registry
//! lists and command tree, it builds the target data document; fetching the
//! snapshot and writing the file is the caller's part.
use vstd::prelude::*;

use crate::command::string_entries;
use crate::ir::strs_view;
use crate::json::{eviews, jview, jviews, lemma_array_view, lemma_object_view, member, JVal, Json};
use crate::mcversion::{Category, PackFormat, PackKind};
use crate::text::{
    cat, chars_of, copy_string, dec_nat, find_char, find_char_from, find_char_in, lemma_lt_asym, lemma_lt_total,
    lemma_lt_trans, owned, push_char, push_dec, seq_lt, str_eq, str_lt,
};

verus! {

// ---------------------------------------------------------------------------
// Pins and tables
// ---------------------------------------------------------------------------
/// A pinned upstream snapshot for one target: the commit is the integrity
/// anchor, the tag is what a person reads.
#[derive(Debug, Clone, Copy)]
pub struct Pin {
    pub commit: &'static str,
    pub tag: &'static str,
}

/// The upstream repository the data is fetched from.
pub const MCMETA_REMOTE: &'static str = "https://github.com/misode/mcmeta.git";

/// Its page, recorded as the source of the data.
pub const MCMETA_SOURCE_URL: &'static str = "https://github.com/misode/mcmeta";

/// The commit pinned for 26.2.
pub const PIN_26_2_COMMIT: &'static str = "711a353b47d84e6cb592a1b72f682e5f44759284";

/// The tag pinned for 26.2.
pub const PIN_26_2_TAG: &'static str = "26.2-summary";

/// The pin for a target, if there is one.
pub open spec fn spec_pin_for(version: Seq<char>) -> Option<(Seq<char>, Seq<char>)> {
    if version == "26.2"@ {
        Some((PIN_26_2_COMMIT@, PIN_26_2_TAG@))
    } else {
        None
    }
}

/// The pinned snapshot for `version`.
pub fn pin_for(version: &str) -> (r: Option<Pin>)
    ensures
        (match r {
            Some(p) => Some((p.commit@, p.tag@)),
            None => None,
        }) == spec_pin_for(version@),
{
    if str_eq(version, "26.2") {
        Some(Pin { commit: PIN_26_2_COMMIT, tag: PIN_26_2_TAG })
    } else {
        None
    }
}

/// The resource categories of version one: the category string, its
/// directory under the pack root, and its file extension.
pub const V1_CATEGORIES: [(&'static str, &'static str, &'static str); 7] = [
    ("advancement", "advancement", "json"),
    ("function", "function", "mcfunction"),
    ("item_modifier", "item_modifier", "json"),
    ("loot_table", "loot_table", "json"),
    ("predicate", "predicate", "json"),
    ("recipe", "recipe", "json"),
    ("tags/function", "tags/function", "json"),
];

/// Categories whose directory must still be a registry upstream, so that a
/// rename there is caught.
pub const REGISTRY_BACKED: [&'static str; 3] = ["advancement", "loot_table", "recipe"];

// ---------------------------------------------------------------------------
// Sorted string lists
// ---------------------------------------------------------------------------
/// Whether `s` is strictly increasing, so each string occurs once.
pub open spec fn sorted_strs(s: Seq<Seq<char>>) -> bool {
    forall|i: int, j: int| 0 <= i < j < s.len() ==> seq_lt(#[trigger] s[i], #[trigger] s[j])
}

/// The first position at or after `from` whose string does not sort before `k`.
pub open spec fn str_pos_from(s: Seq<Seq<char>>, k: Seq<char>, from: int) -> int
    decreases s.len() - from,
{
    if from < 0 || from >= s.len() {
        s.len() as int
    } else if !seq_lt(s[from], k) {
        from
    } else {
        str_pos_from(s, k, from + 1)
    }
}

proof fn lemma_str_pos(s: Seq<Seq<char>>, k: Seq<char>, from: int)
    requires
        0 <= from <= s.len(),
    ensures
        from <= str_pos_from(s, k, from) <= s.len(),
        forall|i: int| from <= i < str_pos_from(s, k, from) ==> seq_lt(#[trigger] s[i], k),
        str_pos_from(s, k, from) < s.len() ==> !seq_lt(s[str_pos_from(s, k, from)], k),
    decreases s.len() - from,
{
    if from < s.len() && seq_lt(s[from], k) {
        lemma_str_pos(s, k, from + 1);
    }
}

/// `s` with `k` added in its sorted place, unless it is already there.
pub open spec fn str_insert(s: Seq<Seq<char>>, k: Seq<char>) -> Seq<Seq<char>> {
    let p = str_pos_from(s, k, 0);
    if p < s.len() && s[p] == k {
        s
    } else {
        s.insert(p, k)
    }
}

proof fn lemma_str_insert(s: Seq<Seq<char>>, k: Seq<char>)
    requires
        sorted_strs(s),
    ensures
        sorted_strs(str_insert(s, k)),
        forall|x: Seq<char>| #[trigger] str_insert(s, k).contains(x) <==> (s.contains(x) || x == k),
{
    let p = str_pos_from(s, k, 0);
    lemma_str_pos(s, k, 0);
    let r = str_insert(s, k);
    if p < s.len() && s[p] == k {
    } else {
        if p < s.len() {
            lemma_lt_total(s[p], k);
        }
        assert forall|i: int, j: int| 0 <= i < j < r.len() implies seq_lt(#[trigger] r[i], #[trigger] r[j]) by {
            if j < p {
                assert(r[i] == s[i] && r[j] == s[j]);
            } else if j == p {
                assert(r[i] == s[i]);
            } else if i == p {
                assert(r[j] == s[j - 1]);
                if j - 1 > p {
                    assert(seq_lt(s[p], s[j - 1]));
                    lemma_lt_trans(k, s[p], s[j - 1]);
                }
            } else if i < p {
                assert(r[i] == s[i] && r[j] == s[j - 1]);
                if j - 1 > p {
                    assert(seq_lt(s[p], s[j - 1]));
                    lemma_lt_trans(k, s[p], s[j - 1]);
                }
                lemma_lt_trans(s[i], k, s[j - 1]);
            } else {
                assert(r[i] == s[i - 1] && r[j] == s[j - 1]);
            }
        }
        assert forall|x: Seq<char>| r.contains(x) <==> (s.contains(x) || x == k) by {
            if r.contains(x) {
                let i = choose|i: int| 0 <= i < r.len() && r[i] == x;
                if i < p {
                    assert(s[i] == x);
                } else if i > p {
                    assert(s[i - 1] == x);
                }
            }
            if s.contains(x) {
                let i = choose|i: int| 0 <= i < s.len() && s[i] == x;
                if i < p {
                    assert(r[i] == x);
                } else {
                    assert(r[i + 1] == x);
                }
            }
            if x == k {
                assert(r[p] == x);
            }
        }
    }
}

/// Adds `k` to a sorted list of unique strings.
pub(crate) fn insert_sorted(v: &mut Vec<String>, k: String)
    requires
        sorted_strs(strs_view(old(v)@)),
    ensures
        strs_view(final(v)@) == str_insert(strs_view(old(v)@), k@),
        sorted_strs(strs_view(final(v)@)),
        forall|x: Seq<char>| strs_view(final(v)@).contains(x) <==> (strs_view(old(v)@).contains(x) || x == k@),
{
    let ghost s = strs_view(v@);
    proof {
        lemma_str_insert(s, k@);
    }
    let mut i: usize = 0;
    while i < v.len() && str_lt(v[i].as_str(), k.as_str())
        invariant
            i <= v@.len(),
            s == strs_view(v@),
            str_pos_from(s, k@, 0) == str_pos_from(s, k@, i as int),
        decreases v@.len() - i,
    {
        i = i + 1;
    }
    if i < v.len() && str_eq(v[i].as_str(), k.as_str()) {
        assert forall|x: Seq<char>| s.contains(x) <==> (s.contains(x) || x == k@) by {
            assert(str_insert(s, k@).contains(x) <==> (s.contains(x) || x == k@));
        }
        return;
    }
    let ghost kv = k@;
    v.insert(i, k);
    assert(strs_view(v@) =~= s.insert(i as int, kv));
    assert(strs_view(v@) == str_insert(s, kv));
    assert forall|x: Seq<char>| strs_view(v@).contains(x) <==> (s.contains(x) || x == kv) by {
        assert(str_insert(s, kv).contains(x) <==> (s.contains(x) || x == kv));
    }
}

// ---------------------------------------------------------------------------
// Registries
// ---------------------------------------------------------------------------
/// An identifier with the default namespace when it has none.
pub open spec fn namespaced(s: Seq<char>) -> Seq<char> {
    if find_char(s, ':') is Some {
        s
    } else {
        "minecraft:"@ + s
    }
}

/// The registry `name`'s array, when the registries have one.
pub open spec fn registry_array(registries: Seq<(Seq<char>, JVal)>, name: Seq<char>) -> Option<Seq<JVal>> {
    match crate::json::obj_get(registries, name) {
        Some(JVal::Arr(items)) => Some(items),
        _ => None,
    }
}

/// The message when a registry has no array.
pub open spec fn no_array(name: Seq<char>) -> Seq<char> {
    "mcmeta registries has no array for '"@ + name + "'"@
}

/// What `id_list` gives: an error when there is no array, otherwise a sorted
/// list, without repeats, of exactly the namespaced string entries.
pub open spec fn id_list_ok(registries: Seq<(Seq<char>, JVal)>, name: Seq<char>, r: Result<Seq<Seq<char>>, Seq<char>>) -> bool {
    match registry_array(registries, name) {
        None => r == Err::<Seq<Seq<char>>, Seq<char>>(no_array(name)),
        Some(items) => match r {
            Ok(ids) => sorted_strs(ids) && forall|x: Seq<char>|
                ids.contains(x) <==> exists|i: int|
                    0 <= i < string_entries(items).len() && x == namespaced(
                        #[trigger] string_entries(items)[i],
                    ),
            Err(_) => false,
        },
    }
}

fn namespaced_id(s: &str) -> (r: String)
    ensures
        r@ == namespaced(s@),
{
    let cs = chars_of(s);
    match find_char_in(&cs, ':') {
        Some(_) => owned(s),
        None => cat("minecraft:", s),
    }
}

/// The identifiers of one registry, namespaced, sorted, each once.
pub fn id_list(registries: &Vec<(String, Json)>, name: &str) -> (r: Result<Vec<String>, String>)
    ensures
        id_list_ok(
            eviews(registries@),
            name@,
            match r {
                Ok(v) => Ok(strs_view(v@)),
                Err(e) => Err(e@),
            },
        ),
{
    let raw = match member(registries, name) {
        Some(k) => match &registries[k].1 {
            Json::Array(items) => items,
            _ => {
                let mut m = cat("mcmeta registries has no array for '", name);
                m.append("'");
                return Err(m);
            },
        },
        None => {
            let mut m = cat("mcmeta registries has no array for '", name);
            m.append("'");
            return Err(m);
        },
    };
    proof {
        lemma_array_view(*raw);
    }
    let ghost items = jviews(raw@);
    assert(registry_array(eviews(registries@), name@) == Some(items));
    let mut ids: Vec<String> = Vec::new();
    let mut i: usize = 0;
    assert(items.take(0) =~= Seq::<JVal>::empty());
    while i < raw.len()
        invariant
            i <= raw@.len(),
            items == jviews(raw@),
            sorted_strs(strs_view(ids@)),
            forall|x: Seq<char>|
                strs_view(ids@).contains(x) <==> exists|j: int|
                    0 <= j < string_entries(items.take(i as int)).len() && x == namespaced(
                        #[trigger] string_entries(items.take(i as int))[j],
                    ),
        decreases raw@.len() - i,
    {
        let ghost before = string_entries(items.take(i as int));
        assert(items.take(i + 1).drop_last() =~= items.take(i as int));
        match &raw[i] {
            Json::Str(s) => {
                let ghost old_ids = strs_view(ids@);
                let id = namespaced_id(s.as_str());
                let ghost idv = id@;
                insert_sorted(&mut ids, id);
                let ghost after = string_entries(items.take(i + 1));
                assert(after == before.push(s@));
                assert forall|x: Seq<char>| strs_view(ids@).contains(x) <==> exists|j: int|
                    0 <= j < after.len() && x == namespaced(#[trigger] after[j]) by {
                    if strs_view(ids@).contains(x) {
                        if old_ids.contains(x) {
                            let j = choose|j: int| 0 <= j < before.len() && x == namespaced(#[trigger] before[j]);
                            assert(after[j] == before[j]);
                        } else {
                            assert(x == idv);
                            assert(after[before.len() as int] == s@);
                            assert(x == namespaced(after[before.len() as int]));
                        }
                    }
                    if exists|j: int| 0 <= j < after.len() && x == namespaced(#[trigger] after[j]) {
                        let j = choose|j: int| 0 <= j < after.len() && x == namespaced(#[trigger] after[j]);
                        if j < before.len() {
                            assert(after[j] == before[j]);
                            assert(x == namespaced(before[j]));
                            assert(old_ids.contains(x));
                        } else {
                            assert(x == idv);
                        }
                    }
                }
            },
            _ => {
                assert(string_entries(items.take(i + 1)) == before);
            },
        }
        i = i + 1;
    }
    assert(items.take(i as int) =~= items);
    Ok(ids)
}


// ---------------------------------------------------------------------------
// The command tree without permissions
// ---------------------------------------------------------------------------
/// `v` with every `permissions` member removed, at every depth.
pub open spec fn strip(v: JVal) -> JVal
    decreases v,
{
    match v {
        JVal::Obj(es) => JVal::Obj(strip_members(es)),
        JVal::Arr(items) => JVal::Arr(strip_items(items)),
        _ => v,
    }
}

/// The members of an object without `permissions`, each value stripped.
pub open spec fn strip_members(es: Seq<(Seq<char>, JVal)>) -> Seq<(Seq<char>, JVal)>
    decreases es,
{
    if es.len() == 0 {
        Seq::empty()
    } else {
        proof {
            assert(decreases_to!(es => es.drop_last()));
            assert(decreases_to!(es => es[es.len() - 1]));
            assert(decreases_to!(es[es.len() - 1] => es[es.len() - 1].1));
        }
        let rest = strip_members(es.drop_last());
        let (k, v) = es.last();
        if k == "permissions"@ {
            rest
        } else {
            rest.push((k, strip(v)))
        }
    }
}

/// Each element of an array stripped.
pub open spec fn strip_items(items: Seq<JVal>) -> Seq<JVal>
    decreases items,
{
    if items.len() == 0 {
        Seq::empty()
    } else {
        proof {
            assert(decreases_to!(items => items.drop_last()));
            assert(decreases_to!(items => items[items.len() - 1]));
        }
        strip_items(items.drop_last()).push(strip(items.last()))
    }
}

fn strip_value(j: &Json) -> (r: Json)
    ensures
        r@ == strip(j@),
    decreases j,
{
    match j {
        Json::Array(items) => {
            proof {
                lemma_array_view(*items);
            }
            let ghost iv = jviews(items@);
            let mut out: Vec<Json> = Vec::new();
            let mut i: usize = 0;
            assert(jviews(out@) =~= strip_items(iv.take(0)));
            while i < items.len()
                invariant
                    i <= items@.len(),
                    *j == Json::Array(*items),
                    iv == jviews(items@),
                    jviews(out@) == strip_items(iv.take(i as int)),
                decreases items@.len() - i,
            {
                proof {
                    assert(*items == j->Array_0);
                    assert(decreases_to!(*j => j->Array_0));
                    assert(decreases_to!(*items => items@));
                    assert(decreases_to!(items@ => items@[i as int]));
                    assert(decreases_to!(*j => items@[i as int]));
                }
                let c = strip_value(&items[i]);
                let ghost before = jviews(out@);
                out.push(c);
                assert(iv.take(i + 1).drop_last() =~= iv.take(i as int));
                assert(jviews(out@) =~= before.push(c@));
                i = i + 1;
            }
            assert(iv.take(i as int) =~= iv);
            proof {
                lemma_array_view(out);
            }
            Json::Array(out)
        },
        Json::Object(es) => {
            proof {
                lemma_object_view(*es);
            }
            let ghost ev = eviews(es@);
            let mut out: Vec<(String, Json)> = Vec::new();
            let mut i: usize = 0;
            assert(eviews(out@) =~= strip_members(ev.take(0)));
            while i < es.len()
                invariant
                    i <= es@.len(),
                    *j == Json::Object(*es),
                    ev == eviews(es@),
                    eviews(out@) == strip_members(ev.take(i as int)),
                decreases es@.len() - i,
            {
                proof {
                    assert(*es == j->Object_0);
                    assert(decreases_to!(*j => j->Object_0));
                    assert(decreases_to!(*es => es@));
                    assert(decreases_to!(es@ => es@[i as int]));
                    assert(decreases_to!(es@[i as int] => es@[i as int].1));
                    assert(decreases_to!(*j => es@[i as int].1));
                }
                assert(ev.take(i + 1).drop_last() =~= ev.take(i as int));
                assert(ev.take(i + 1).last() == (es@[i as int].0@, jview(es@[i as int].1)));
                if !str_eq(es[i].0.as_str(), "permissions") {
                    let v = strip_value(&es[i].1);
                    let ghost before = eviews(out@);
                    let key = copy_string(&es[i].0);
                    out.push((key, v));
                    assert(eviews(out@) =~= before.push((es@[i as int].0@, v@)));
                }
                i = i + 1;
            }
            assert(ev.take(i as int) =~= ev);
            proof {
                lemma_object_view(out);
            }
            Json::Object(out)
        },
        Json::Null => Json::Null,
        Json::Bool(b) => Json::Bool(*b),
        Json::Number(n) => Json::Number(crate::json::copy_number(n)),
        Json::Str(t) => Json::Str(copy_string(t)),
    }
}

/// Removes every `permissions` member from the command tree. It carries the
/// permission level of a command, which does not decide whether a command
/// string parses.
pub fn strip_permissions(value: Json) -> (r: Json)
    ensures
        r@ == strip(value@),
{
    strip_value(&value)
}

/// Whether no object anywhere in `v` has a `permissions` member.
pub open spec fn no_permissions(v: JVal) -> bool
    decreases v,
{
    match v {
        JVal::Obj(es) => forall|i: int|
            0 <= i < es.len() ==> (#[trigger] es[i]).0 != "permissions"@ && no_permissions(es[i].1),
        JVal::Arr(items) => forall|i: int| 0 <= i < items.len() ==> no_permissions(#[trigger] items[i]),
        _ => true,
    }
}

proof fn lemma_strip_members(es: Seq<(Seq<char>, JVal)>)
    ensures
        forall|i: int|
            0 <= i < strip_members(es).len() ==> (#[trigger] strip_members(es)[i]).0 != "permissions"@
                && no_permissions(strip_members(es)[i].1),
    decreases es,
{
    if es.len() > 0 {
        assert(decreases_to!(es => es.drop_last()));
        assert(decreases_to!(es => es[es.len() - 1]));
        assert(decreases_to!(es[es.len() - 1] => es[es.len() - 1].1));
        lemma_strip_members(es.drop_last());
        law_strip_removes_permissions(es.last().1);
        let rest = strip_members(es.drop_last());
        let (k, v) = es.last();
        if k != "permissions"@ {
            let r = strip_members(es);
            assert(r == rest.push((k, strip(v))));
            assert forall|i: int| 0 <= i < r.len() implies (#[trigger] r[i]).0 != "permissions"@
                && no_permissions(r[i].1) by {
                if i < rest.len() {
                    assert(r[i] == rest[i]);
                }
            }
        }
    }
}

proof fn lemma_strip_items(items: Seq<JVal>)
    ensures
        forall|i: int| 0 <= i < strip_items(items).len() ==> no_permissions(#[trigger] strip_items(items)[i]),
    decreases items,
{
    if items.len() > 0 {
        assert(decreases_to!(items => items.drop_last()));
        assert(decreases_to!(items => items[items.len() - 1]));
        lemma_strip_items(items.drop_last());
        law_strip_removes_permissions(items.last());
        let rest = strip_items(items.drop_last());
        let r = strip_items(items);
        assert(r == rest.push(strip(items.last())));
        assert forall|i: int| 0 <= i < r.len() implies no_permissions(#[trigger] r[i]) by {
            if i < rest.len() {
                assert(r[i] == rest[i]);
            }
        }
    }
}

/// After stripping, no object at any depth has a `permissions` member.
pub proof fn law_strip_removes_permissions(v: JVal)
    ensures
        no_permissions(strip(v)),
    decreases v,
{
    match v {
        JVal::Obj(es) => {
            lemma_strip_members(es);
            let r = strip_members(es);
            assert(strip(v) == JVal::Obj(r));
            assert forall|i: int| 0 <= i < r.len() implies (#[trigger] r[i]).0 != "permissions"@
                && no_permissions(r[i].1) by {}
        },
        JVal::Arr(items) => {
            lemma_strip_items(items);
            let r = strip_items(items);
            assert(strip(v) == JVal::Arr(r));
            assert forall|i: int| 0 <= i < r.len() implies no_permissions(#[trigger] r[i]) by {}
        },
        _ => {},
    }
}

// ---------------------------------------------------------------------------
// Dates
// ---------------------------------------------------------------------------
/// The civil date (year, month, day) of `days` since 1970-01-01, by Howard
/// Hinnant's days-to-civil algorithm over 400-year eras of 146097 days.
pub open spec fn spec_civil_from_days(days: int) -> (int, int, int) {
    let z = days + 719_468;
    let era = z / 146_097;
    let doe = z - era * 146_097;
    let yoe = (doe - doe / 1460 + doe / 36_524 - doe / 146_096) / 365;
    let y = yoe + era * 400;
    let doy = doe - (365 * yoe + yoe / 4 - yoe / 100);
    let mp = (5 * doy + 2) / 153;
    let d = doy - (153 * mp + 2) / 5 + 1;
    let m = if mp < 10 {
        mp + 3
    } else {
        mp - 9
    };
    (if m <= 2 {
        y + 1
    } else {
        y
    }, m, d)
}

/// The civil date of `days` since 1970-01-01.
#[verifier::spinoff_prover]
pub fn civil_from_days(days: i64) -> (r: (i64, i64, i64))
    requires
        days <= i64::MAX - 719_468,
    ensures
        (r.0 as int, r.1 as int, r.2 as int) == spec_civil_from_days(days as int),
        1 <= r.1 <= 12,
        1 <= r.2 <= 31,
{
    proof {
        law_civil_date_ranges(days as int);
    }
    let z = days + 719_468;
    let era = if z >= 0 {
        z / 146_097
    } else {
        (z - 146_096) / 146_097
    };
    let ghost ez = z as int / 146_097;
    proof {
        if z < 0 {
            assert(era == ez) by (nonlinear_arith)
                requires
                    z < 0,
                    era == -((146_096 - z) / 146_097),
                    ez == z as int / 146_097,
            ;
        }
        assert(0 <= z - ez * 146_097 < 146_097) by (nonlinear_arith)
            requires
                ez == z as int / 146_097,
        ;
        assert(-63_200_000_000_000 <= ez <= 63_200_000_000_000) by (nonlinear_arith)
            requires
                ez == z as int / 146_097,
                i64::MIN <= z <= i64::MAX,
        ;
    }
    let doe = z - era * 146_097;
    let yoe = (doe - doe / 1460 + doe / 36_524 - doe / 146_096) / 365;
    proof {
        assert(0 <= yoe <= 400) by (nonlinear_arith)
            requires
                0 <= doe < 146_097,
                yoe == (doe - doe / 1460 + doe / 36_524 - doe / 146_096) / 365,
        ;
    }
    let y = yoe + era * 400;
    let doy = doe - (365 * yoe + yoe / 4 - yoe / 100);
    let mp = (5 * doy + 2) / 153;
    let d = doy - (153 * mp + 2) / 5 + 1;
    let m = if mp < 10 {
        mp + 3
    } else {
        mp - 9
    };
    (if m <= 2 {
        y + 1
    } else {
        y
    }, m, d)
}

/// `n` zero characters.
pub open spec fn zeros(n: int) -> Seq<char>
    decreases n,
{
    if n <= 0 {
        Seq::empty()
    } else {
        zeros(n - 1).push('0')
    }
}

/// `n` in decimal, padded with zeros after any sign to at least `w`
/// characters, as `{:0w}` writes it.
pub open spec fn padded(n: int, w: int) -> Seq<char> {
    if n >= 0 {
        zeros(w - dec_nat(n as nat).len()) + dec_nat(n as nat)
    } else {
        seq!['-'] + zeros(w - 1 - dec_nat((-n) as nat).len()) + dec_nat((-n) as nat)
    }
}

fn push_padded(out: &mut String, n: i64, w: usize)
    ensures
        final(out)@ == old(out)@ + padded(n as int, w as int),
{
    let neg = n < 0;
    let mag: u64 = if n == i64::MIN {
        9223372036854775808u64
    } else if neg {
        (-n) as u64
    } else {
        n as u64
    };
    let digits = crate::text::fmt_u64(mag);
    let count = chars_of(digits.as_str()).len();
    let want: usize = if neg {
        if w >= 1 {
            w - 1
        } else {
            0
        }
    } else {
        w
    };
    if neg {
        push_char(out, '-');
    }
    let ghost start = out@;
    let mut k: usize = count;
    while k < want
        invariant
            count <= k <= want || (want < count && k == count),
            out@ == start + zeros(k - count),
        decreases want - k,
    {
        push_char(out, '0');
        k = k + 1;
        assert(zeros(k - count) == zeros(k - 1 - count).push('0'));
    }
    out.append(digits.as_str());
    proof {
        if neg {
            assert(zeros(w - 1 - dec_nat(mag as nat).len()) == zeros(k - count));
        } else {
            assert(zeros(w - dec_nat(mag as nat).len()) == zeros(k - count));
        }
        assert(final(out)@ =~= old(out)@ + padded(n as int, w as int));
    }
}

/// The date `days` since 1970-01-01 as `yyyy-mm-dd`.
pub open spec fn spec_date_text(days: int) -> Seq<char> {
    let (y, m, d) = spec_civil_from_days(days);
    padded(y, 4) + "-"@ + padded(m, 2) + "-"@ + padded(d, 2)
}

/// The date of a clock reading, in whole seconds since 1970-01-01, as
/// `yyyy-mm-dd`.
pub fn today_from_secs(secs: u64) -> (r: String)
    ensures
        r@ == spec_date_text((secs / 86_400) as int),
{
    let days = (secs / 86_400) as i64;
    let (y, m, d) = civil_from_days(days);
    let mut out = String::new();
    push_padded(&mut out, y, 4);
    out.append("-");
    push_padded(&mut out, m, 2);
    out.append("-");
    push_padded(&mut out, d, 2);
    out
}

// ---------------------------------------------------------------------------
// Comparing a regenerated file
// ---------------------------------------------------------------------------
/// The line that stands for any `extracted` line.
pub const EXTRACTED_BLANK: &'static str = "    \"extracted\": \"\",";

/// A line without the carriage return of a CRLF ending.
pub open spec fn drop_cr(l: Seq<char>) -> Seq<char> {
    if l.len() > 0 && l.last() == '\r' {
        l.drop_last()
    } else {
        l
    }
}

/// A line with the date of extraction blanked: any line whose text after
/// leading whitespace starts with `"extracted":`.
pub open spec fn blank_extracted(l: Seq<char>) -> Seq<char> {
    if crate::cli::has_prefix(l.skip(crate::command::lead_from(l, 0)), "\"extracted\":"@) {
        EXTRACTED_BLANK@
    } else {
        l
    }
}

/// The lines of `s` from `from` on, as `str::lines` splits them (at LF or
/// CRLF, the last line ending optional), each blanked where it records the
/// extraction date.
pub open spec fn blanked_lines(s: Seq<char>, from: int) -> Seq<Seq<char>>
    decreases s.len() - from,
{
    if from < 0 || from >= s.len() {
        Seq::empty()
    } else {
        match find_char_from(s, '\n', from) {
            None => seq![blank_extracted(s.subrange(from, s.len() as int))],
            Some(i) => {
                proof {
                    crate::text::lemma_find_char_from_bounds(s, '\n', from);
                }
                seq![blank_extracted(drop_cr(s.subrange(from, i)))] + blanked_lines(s, i + 1)
            },
        }
    }
}

/// A data file with its one non-deterministic field blanked, so that two
/// extractions on different days compare equal.
pub open spec fn spec_strip_extracted(json: Seq<char>) -> Seq<char> {
    crate::message::join(blanked_lines(json, 0), "\n"@)
}

fn blank_line(cs: &Vec<char>, from: usize, to: usize) -> (r: String)
    requires
        from <= to <= cs@.len(),
    ensures
        r@ == blank_extracted(cs@.subrange(from as int, to as int)),
{
    let line = crate::text::string_of(cs, from, to);
    let ghost l = line@;
    let mut lo = from;
    while lo < to && crate::text::is_whitespace(cs[lo])
        invariant
            from <= lo <= to <= cs@.len(),
            l == cs@.subrange(from as int, to as int),
            crate::command::lead_from(l, 0) == crate::command::lead_from(l, lo - from),
        decreases to - lo,
    {
        assert(l[lo - from] == cs@[lo as int]);
        lo = lo + 1;
    }
    proof {
        if lo < to {
            assert(l[lo - from] == cs@[lo as int]);
        }
    }
    let rest = crate::text::string_of(cs, lo, to);
    assert(rest@ =~= l.skip(crate::command::lead_from(l, 0)));
    if crate::cli::strip_prefix(rest.as_str(), "\"extracted\":").is_some() {
        owned(EXTRACTED_BLANK)
    } else {
        line
    }
}

/// Blanks the one non-deterministic provenance field of a data file.
pub fn strip_extracted(json: &str) -> (r: String)
    ensures
        r@ == spec_strip_extracted(json@),
{
    let cs = chars_of(json);
    let n = cs.len();
    let mut lines: Vec<String> = Vec::new();
    let mut from: usize = 0;
    assert(strs_view(lines@) + blanked_lines(cs@, 0) =~= blanked_lines(cs@, 0));
    while from < n
        invariant
            from <= n == cs@.len(),
            cs@ == json@,
            strs_view(lines@) + blanked_lines(cs@, from as int) == blanked_lines(cs@, 0),
        decreases n - from,
    {
        proof {
            crate::text::lemma_find_char_from_bounds(cs@, '\n', from as int);
        }
        let mut i = from;
        while i < n && cs[i] != '\n'
            invariant
                from <= i <= n == cs@.len(),
                find_char_from(cs@, '\n', from as int) == find_char_from(cs@, '\n', i as int),
            decreases n - i,
        {
            i = i + 1;
        }
        let ghost before = strs_view(lines@);
        if i < n {
            let end = if i > from && cs[i - 1] == '\r' {
                i - 1
            } else {
                i
            };
            assert(cs@.subrange(from as int, end as int) =~= drop_cr(cs@.subrange(from as int, i as int)));
            lines.push(blank_line(&cs, from, end));
            from = i + 1;
        } else {
            lines.push(blank_line(&cs, from, n));
            from = n;
        }
        assert(strs_view(lines@) =~= before.push(strs_view(lines@).last()));
    }
    assert(blanked_lines(cs@, from as int) =~= Seq::<Seq<char>>::empty());
    assert(strs_view(lines@) =~= blanked_lines(cs@, 0));
    crate::message::join_strings(lines.as_slice(), "\n")
}

// ---------------------------------------------------------------------------
// The target data document
// ---------------------------------------------------------------------------
/// The licence marker of a generated data file.
pub const SPDX: &'static str = "LicenseRef-Minecraft-Derived";

/// The notice at the top of a generated data file.
pub const COMMENT: &'static str = "Derived from Minecraft: Java Edition via misode/mcmeta. Not covered by Packsmith's licence grants; see NOTICE, ADR-0014, ADR-0015. Generated by `cargo xtask sync-target`; do not edit by hand.";

/// The upstream version record: its id and the data and resource pack
/// formats.
#[derive(Debug)]
pub struct VersionInfo {
    pub id: String,
    pub data_pack_version: u32,
    pub data_pack_version_minor: u32,
    pub resource_pack_version: u32,
    pub resource_pack_version_minor: u32,
}

/// Where a data file came from.
#[derive(Debug)]
pub struct Provenance {
    pub source_url: &'static str,
    pub mcmeta_commit: &'static str,
    pub mcmeta_tag: &'static str,
    pub mcmeta_version_id: String,
    pub extracted: String,
    pub inputs: Vec<(String, String)>,
}

/// The registry id lists of a data file.
#[derive(Debug)]
pub struct Registries {
    pub block: Vec<String>,
    pub item: Vec<String>,
    pub entity_type: Vec<String>,
}

/// A target data file, in the order its fields are written.
#[derive(Debug)]
pub struct TargetFile {
    pub spdx: &'static str,
    pub comment: &'static str,
    pub provenance: Provenance,
    pub target: String,
    pub pack_formats: Vec<(String, PackFormat)>,
    pub pack_kinds: Vec<(String, PackKind)>,
    pub categories: Vec<(String, Category)>,
    pub registries: Registries,
    pub commands: Json,
}

/// Whether `name` is one of the registry-backed categories.
pub open spec fn is_backed(name: Seq<char>) -> bool {
    exists|j: int| 0 <= j < 3 && (#[trigger] REGISTRY_BACKED@[j])@ == name
}

/// The first category from index `i` on that must be a registry upstream and
/// is not one there.
pub open spec fn missing_backed_from(registries: Seq<(Seq<char>, JVal)>, i: int) -> Option<Seq<char>>
    decreases 7 - i,
{
    if i < 0 || i >= 7 {
        None
    } else {
        let name = V1_CATEGORIES@[i].0@;
        if is_backed(name) && registry_array(registries, name) is None {
            Some(name)
        } else {
            missing_backed_from(registries, i + 1)
        }
    }
}

/// The category table of version one.
pub open spec fn v1_table() -> Seq<(Seq<char>, crate::mcversion::CategoryV)> {
    Seq::new(
        7,
        |i: int|
            (V1_CATEGORIES@[i].0@, crate::mcversion::CategoryV {
                directory: V1_CATEGORIES@[i].1@,
                extension: V1_CATEGORIES@[i].2@,
            }),
    )
}

/// Why a data file cannot be built, if it cannot: a registry-backed category
/// that is no registry upstream, else a registry id list without an array.
pub open spec fn build_target_error(registries: Seq<(Seq<char>, JVal)>, tag: Seq<char>) -> Option<Seq<char>> {
    match missing_backed_from(registries, 0) {
        Some(name) => Some(
            "mcmeta "@ + tag + " no longer lists registry '"@ + name
                + "'; the category table needs review"@,
        ),
        None => if registry_array(registries, "block"@) is None {
            Some(no_array("block"@))
        } else if registry_array(registries, "item"@) is None {
            Some(no_array("item"@))
        } else if registry_array(registries, "entity_type"@) is None {
            Some(no_array("entity_type"@))
        } else {
            None
        },
    }
}

fn backed(name: &str) -> (r: bool)
    ensures
        r == is_backed(name@),
{
    let mut j: usize = 0;
    while j < 3
        invariant
            j <= 3,
            forall|k: int| 0 <= k < j ==> (#[trigger] REGISTRY_BACKED@[k])@ != name@,
        decreases 3 - j,
    {
        if str_eq(REGISTRY_BACKED[j], name) {
            return true;
        }
        j = j + 1;
    }
    false
}

fn has_array(registries: &Vec<(String, Json)>, name: &str) -> (r: bool)
    ensures
        r == (registry_array(eviews(registries@), name@) is Some),
{
    proof {
        lemma_object_view(*registries);
    }
    match member(registries, name) {
        Some(k) => match &registries[k].1 {
            Json::Array(_) => true,
            _ => false,
        },
        None => false,
    }
}

/// Builds the target data file of `version` from the upstream version
/// record, registries and command tree, checked against the category table.
pub fn build_target(
    version: &str,
    v: &VersionInfo,
    registries: &Vec<(String, Json)>,
    commands: &Json,
    pin: &Pin,
    inputs: Vec<(String, String)>,
    extracted: String,
) -> (r: Result<TargetFile, String>)
    ensures
        (r is Err) == (build_target_error(eviews(registries@), pin.tag@) is Some),
        r matches Err(e) ==> Some(e@) == build_target_error(eviews(registries@), pin.tag@),
        r matches Ok(tf) ==> {
            &&& tf.spdx@ == SPDX@
            &&& tf.comment@ == COMMENT@
            &&& tf.provenance.source_url@ == MCMETA_SOURCE_URL@
            &&& tf.provenance.mcmeta_commit@ == pin.commit@
            &&& tf.provenance.mcmeta_tag@ == pin.tag@
            &&& tf.provenance.mcmeta_version_id@ == v.id@
            &&& tf.provenance.extracted@ == extracted@
            &&& tf.provenance.inputs@ == inputs@
            &&& tf.target@ == version@
            &&& crate::mcversion::formats_view(tf.pack_formats@) == seq![
                ("data"@, PackFormat { major: v.data_pack_version, minor: v.data_pack_version_minor }),
                ("resource"@, PackFormat { major: v.resource_pack_version, minor: v.resource_pack_version_minor }),
            ]
            &&& crate::mcversion::kinds_view(tf.pack_kinds@) == seq![
                ("data"@, crate::mcversion::PackKindV { root: "data"@, format: "data"@ }),
                ("resource"@, crate::mcversion::PackKindV { root: "assets"@, format: "resource"@ }),
            ]
            &&& crate::mcversion::categories_view(tf.categories@) == v1_table()
            &&& id_list_ok(eviews(registries@), "block"@, Ok(strs_view(tf.registries.block@)))
            &&& id_list_ok(eviews(registries@), "item"@, Ok(strs_view(tf.registries.item@)))
            &&& id_list_ok(eviews(registries@), "entity_type"@, Ok(strs_view(tf.registries.entity_type@)))
            &&& tf.commands@ == strip(commands@)
        },
{
    let ghost reg = eviews(registries@);
    let mut categories: Vec<(String, Category)> = Vec::new();
    let mut i: usize = 0;
    while i < 7
        invariant
            i <= 7,
            reg == eviews(registries@),
            missing_backed_from(reg, 0) == missing_backed_from(reg, i as int),
            crate::mcversion::categories_view(categories@) == v1_table().take(i as int),
        decreases 7 - i,
    {
        let (name, directory, extension) = V1_CATEGORIES[i];
        if backed(name) && !has_array(registries, name) {
            let mut m = cat("mcmeta ", pin.tag);
            m.append(" no longer lists registry '");
            m.append(name);
            m.append("'; the category table needs review");
            return Err(m);
        }
        let ghost before = crate::mcversion::categories_view(categories@);
        categories.push((owned(name), Category { directory: owned(directory), extension: owned(extension) }));
        assert(crate::mcversion::categories_view(categories@) =~= v1_table().take(i + 1)) by {
            assert(crate::mcversion::categories_view(categories@) =~= before.push(v1_table()[i as int]));
        }
        i = i + 1;
    }
    assert(v1_table().take(7) =~= v1_table());
    let block = id_list(registries, "block")?;
    let item = id_list(registries, "item")?;
    let entity_type = id_list(registries, "entity_type")?;
    let mut pack_formats: Vec<(String, PackFormat)> = Vec::new();
    pack_formats.push((owned("data"), PackFormat { major: v.data_pack_version, minor: v.data_pack_version_minor }));
    pack_formats.push((owned("resource"), PackFormat { major: v.resource_pack_version, minor: v.resource_pack_version_minor }));
    let mut pack_kinds: Vec<(String, PackKind)> = Vec::new();
    pack_kinds.push((owned("data"), PackKind { root: owned("data"), format: owned("data") }));
    pack_kinds.push((owned("resource"), PackKind { root: owned("assets"), format: owned("resource") }));
    assert(crate::mcversion::formats_view(pack_formats@) =~= seq![
        ("data"@, PackFormat { major: v.data_pack_version, minor: v.data_pack_version_minor }),
        ("resource"@, PackFormat { major: v.resource_pack_version, minor: v.resource_pack_version_minor }),
    ]);
    assert(crate::mcversion::kinds_view(pack_kinds@) =~= seq![
        ("data"@, crate::mcversion::PackKindV { root: "data"@, format: "data"@ }),
        ("resource"@, crate::mcversion::PackKindV { root: "assets"@, format: "resource"@ }),
    ]);
    let provenance = Provenance {
        source_url: MCMETA_SOURCE_URL,
        mcmeta_commit: pin.commit,
        mcmeta_tag: pin.tag,
        mcmeta_version_id: copy_string(&v.id),
        extracted,
        inputs,
    };
    Ok(TargetFile {
        spdx: SPDX,
        comment: COMMENT,
        provenance,
        target: owned(version),
        pack_formats,
        pack_kinds,
        categories,
        registries: Registries { block, item, entity_type },
        commands: strip_value(commands),
    })
}

// ---------------------------------------------------------------------------
// The task's arguments
// ---------------------------------------------------------------------------
/// What the task was asked to do: regenerate (or only check) the data of one
/// pinned target.
#[derive(Debug)]
pub struct SyncArgs {
    pub version: String,
    pub check: bool,
    pub pin: Pin,
}

/// The arguments from index `i` on, with what was found so far.
pub open spec fn sync_args_from(args: Seq<Seq<char>>, i: int, version: Option<Seq<char>>, check: bool) -> Result<
    (Seq<char>, bool),
    Seq<char>,
>
    decreases args.len() - i,
{
    if i < 0 || i >= args.len() {
        match version {
            Some(v) => Ok((v, check)),
            None => Err("sync-target: --version <v> is required"@),
        }
    } else if args[i] == "--version"@ {
        if i + 1 < args.len() {
            sync_args_from(args, i + 2, Some(args[i + 1]), check)
        } else {
            Err("--version needs a value, e.g. 26.2"@)
        }
    } else if args[i] == "--check"@ {
        sync_args_from(args, i + 1, version, true)
    } else {
        Err("sync-target: unexpected argument '"@ + args[i] + "'"@)
    }
}

/// What the arguments give: the version and whether only to check, with the
/// version's pin; an error when an argument is unknown, the version is
/// missing, or it has no pin.
pub open spec fn spec_parse_sync_args(args: Seq<Seq<char>>) -> Result<(Seq<char>, bool, Seq<char>, Seq<char>), Seq<char>> {
    match sync_args_from(args, 0, None, false) {
        Err(e) => Err(e),
        Ok((v, check)) => match spec_pin_for(v) {
            None => Err("no mcmeta pin for '"@ + v + "'; add one to xtask/src/sync_target.rs"@),
            Some((commit, tag)) => Ok((v, check, commit, tag)),
        },
    }
}

/// Parses the arguments of the task.
pub fn parse_sync_args(args: &[String]) -> (r: Result<SyncArgs, String>)
    ensures
        (match r {
            Ok(a) => Ok((a.version@, a.check, a.pin.commit@, a.pin.tag@)),
            Err(e) => Err(e@),
        }) == spec_parse_sync_args(strs_view(args@)),
{
    let ghost av = strs_view(args@);
    let mut version: Option<String> = None;
    let mut check = false;
    let mut i: usize = 0;
    while i < args.len()
        invariant
            i <= args@.len(),
            av == strs_view(args@),
            sync_args_from(av, 0, None, false) == sync_args_from(av, i as int, crate::ir::opt_view(version), check),
        decreases args@.len() - i,
    {
        let a = args[i].as_str();
        assert(av[i as int] == a@);
        if str_eq(a, "--version") {
            if i + 1 < args.len() {
                version = Some(copy_string(&args[i + 1]));
                i = i + 2;
            } else {
                return Err(owned("--version needs a value, e.g. 26.2"));
            }
        } else if str_eq(a, "--check") {
            check = true;
            i = i + 1;
        } else {
            let mut m = cat("sync-target: unexpected argument '", a);
            m.append("'");
            return Err(m);
        }
    }
    let version = match version {
        Some(v) => v,
        None => {
            return Err(owned("sync-target: --version <v> is required"));
        },
    };
    match pin_for(version.as_str()) {
        Some(pin) => Ok(SyncArgs { version, check, pin }),
        None => {
            let mut m = cat("no mcmeta pin for '", version.as_str());
            m.append("'; add one to xtask/src/sync_target.rs");
            Err(m)
        },
    }
}

/// Every identifier a registry list gives has a namespace.
pub proof fn law_ids_are_namespaced(s: Seq<char>)
    ensures
        find_char(namespaced(s), ':') is Some,
{
    reveal_strlit("minecraft:");
    let n = namespaced(s);
    crate::text::lemma_find_char_from_bounds(n, ':', 0);
    if find_char(s, ':') is None {
        assert(n[9] == ':');
    }
}

/// The day of the year within a 400-year era lies in `0..=365`.
proof fn lemma_day_of_year(doe: int, q1: int, q2: int, q3: int, yoe: int, y4: int, y100: int)
    requires
        0 <= doe < 146_097,
        1460 * q1 <= doe < 1460 * q1 + 1460,
        36_524 * q2 <= doe < 36_524 * q2 + 36_524,
        146_096 * q3 <= doe < 146_096 * q3 + 146_096,
        365 * yoe <= doe - q1 + q2 - q3 < 365 * yoe + 365,
        4 * y4 <= yoe < 4 * y4 + 4,
        100 * y100 <= yoe < 100 * y100 + 100,
    ensures
        0 <= doe - (365 * yoe + y4 - y100) <= 365,
{
}

proof fn lemma_div_bounds(x: int, c: int)
    requires
        c > 0,
    ensures
        c * (x / c) <= x < c * (x / c) + c,
{
    assert(c * (x / c) <= x < c * (x / c) + c) by (nonlinear_arith)
        requires
            c > 0,
    ;
}

/// The month and day within a year, from the day of the year counted from
/// March 1.
proof fn lemma_month_day(doy: int)
    requires
        0 <= doy <= 365,
    ensures
        0 <= (5 * doy + 2) / 153 <= 11,
        1 <= doy - (153 * ((5 * doy + 2) / 153) + 2) / 5 + 1 <= 31,
{
    let mp = (5 * doy + 2) / 153;
    lemma_div_bounds(5 * doy + 2, 153);
    let t = (153 * mp + 2) / 5;
    lemma_div_bounds(153 * mp + 2, 5);
}

/// A civil date always has a month from 1 to 12 and a day from 1 to 31.
pub proof fn law_civil_date_ranges(days: int)
    ensures
        1 <= spec_civil_from_days(days).1 <= 12,
        1 <= spec_civil_from_days(days).2 <= 31,
{
    let z = days + 719_468;
    let era = z / 146_097;
    lemma_div_bounds(z, 146_097);
    let doe = z - era * 146_097;
    lemma_div_bounds(doe, 1460);
    lemma_div_bounds(doe, 36_524);
    lemma_div_bounds(doe, 146_096);
    let n = doe - doe / 1460 + doe / 36_524 - doe / 146_096;
    lemma_div_bounds(n, 365);
    let yoe = n / 365;
    lemma_div_bounds(yoe, 4);
    lemma_div_bounds(yoe, 100);
    lemma_day_of_year(doe, doe / 1460, doe / 36_524, doe / 146_096, yoe, yoe / 4, yoe / 100);
    let doy = doe - (365 * yoe + yoe / 4 - yoe / 100);
    lemma_month_day(doy);
}
} // verus!
