//! The catalogs of API specifications and the statistics computed over them.
pub mod cache;
pub mod handlers;
pub mod spec;

use vstd::prelude::*;
use std::collections::HashMap;
use crate::yaml::{YamlValue, yaml_get, load_yaml_documents, yaml_rust_documents, absent_or_str, str_or, mapping_len};
use crate::tally::{tally, entries_view, is_tally_of, totals_fit, lemma_entries_view_push, counts_total, law_tally_keeps_sum};
use crate::seqs::lemma_prefix_push;
use crate::app::dao::catalog::spec::{SpecItem, SpecHandlerKind, from_str, from_str_error, detected_format};
use crate::app::dao::catalog::handlers::implem::opanapi::openapi_document;
use crate::app::dao::catalog::handlers::SpecType;
use crate::shared::settings::Catalog;
use crate::text::{debug_text, debug_string};
use crate::app::dao::catalog::handlers::SpecHandler;
use crate::seqs::{lemma_push_contains, lemma_push_no_duplicates};
use crate::app::dao::catalog::cache::CatalogCache;
use vstd::string::*;

verus! {

broadcast use vstd::std_specs::hash::group_hash_axioms;

/// The system, layer or audience used when a spec declares none.
pub const DEFAULT_SYSTEM_LAYER: &'static str = "default";

/// `Yaml::as_i64`: the node as a 64-bit integer.
pub open spec fn as_i64(v: YamlValue) -> Option<i64> {
    match v {
        YamlValue::Int(n) => if i64::MIN <= n <= i64::MAX {
            Some(n as i64)
        } else {
            None
        },
        _ => None,
    }
}

/// The rule code of an `x-zally-ignore` element: its integer, or -1 for any
/// other element (such as a rule name).
pub open spec fn zally_code(v: YamlValue) -> i64 {
    match as_i64(v) {
        Some(n) => n,
        None => -1i64,
    }
}

/// The elements of the `x-zally-ignore` list of a node (none when absent).
pub open spec fn ignore_list(v: YamlValue) -> Seq<YamlValue> {
    match yaml_get(v, "x-zally-ignore"@) {
        Some(YamlValue::Sequence(items)) => items@,
        _ => seq![],
    }
}

/// The rule codes ignored by each path, path after path.
pub open spec fn path_codes(paths: Seq<(YamlValue, YamlValue)>) -> Seq<i64>
    decreases paths.len(),
{
    if paths.len() == 0 {
        seq![]
    } else {
        path_codes(paths.drop_last()) + ignore_list(paths.last().1).map_values(|e: YamlValue| zally_code(e))
    }
}

/// How many times `c` occurs in `s`.
pub open spec fn count_of(s: Seq<i64>, c: i64) -> nat
    decreases s.len(),
{
    if s.len() == 0 {
        0
    } else {
        count_of(s.drop_last(), c) + if s.last() == c {
            1nat
        } else {
            0nat
        }
    }
}

/// The entries of the `paths` mapping of a document.
pub open spec fn zally_paths(doc: YamlValue) -> Seq<(YamlValue, YamlValue)> {
    match yaml_get(doc, "paths"@) {
        Some(YamlValue::Mapping(p)) => p@,
        _ => seq![],
    }
}

/// `k` is an integer of the document-wide `x-zally-ignore` list.
pub open spec fn is_global_code(doc: YamlValue, k: i64) -> bool {
    exists|i: int| 0 <= i < ignore_list(doc).len() && as_i64(#[trigger] ignore_list(doc)[i]) == Some(k)
}

/// The document has the shape the statistics read: a mapping with a
/// `paths` mapping whose items are mappings, and `x-zally-ignore` entries
/// that are lists (the reading panics otherwise). The number of per-path
/// entries fits a `usize`.
pub open spec fn zally_readable(doc: YamlValue) -> bool {
    &&& doc is Mapping
    &&& yaml_get(doc, "paths"@) matches Some(YamlValue::Mapping(_))
    &&& (yaml_get(doc, "x-zally-ignore"@) matches Some(g) ==> g is Sequence)
    &&& forall|i: int| 0 <= i < zally_paths(doc).len() ==> {
        &&& (#[trigger] zally_paths(doc)[i]).1 is Mapping
        &&& (yaml_get(zally_paths(doc)[i].1, "x-zally-ignore"@) matches Some(z) ==> z is Sequence)
    }
    &&& path_codes(zally_paths(doc)).len() <= usize::MAX
}

/// The ignored-rule statistics of one document: every integer rule of the
/// document-wide list counts all paths; any other rule counts the paths
/// that ignore it (a rule named by text counts as -1).
pub open spec fn zally_stats(doc: YamlValue) -> Map<i64, usize> {
    Map::new(
        |k: i64| is_global_code(doc, k) || count_of(path_codes(zally_paths(doc)), k) > 0,
        |k: i64| if is_global_code(doc, k) {
            zally_paths(doc).len() as usize
        } else {
            count_of(path_codes(zally_paths(doc)), k) as usize
        },
    )
}

pub proof fn lemma_count_of_le_len(s: Seq<i64>, c: i64)
    ensures
        count_of(s, c) <= s.len(),
    decreases s.len(),
{
    if s.len() > 0 {
        lemma_count_of_le_len(s.drop_last(), c);
    }
}

pub proof fn lemma_count_of_push(s: Seq<i64>, x: i64, c: i64)
    ensures
        count_of(s.push(x), c) == count_of(s, c) + if x == c {
            1nat
        } else {
            0nat
        },
{
    assert(s.push(x).drop_last() =~= s);
}

pub proof fn lemma_path_codes_prefix_len(paths: Seq<(YamlValue, YamlValue)>, i: int)
    requires
        0 <= i <= paths.len(),
    ensures
        path_codes(paths.subrange(0, i)).len() <= path_codes(paths).len(),
    decreases paths.len(),
{
    if i == paths.len() {
        assert(paths.subrange(0, i) =~= paths);
    } else {
        assert(paths.drop_last().subrange(0, i) =~= paths.subrange(0, i));
        lemma_path_codes_prefix_len(paths.drop_last(), i);
    }
}

/// `Yaml::as_i64`.
pub fn yaml_as_i64(v: &YamlValue) -> (r: Option<i64>)
    ensures
        r == as_i64(*v),
{
    match v {
        YamlValue::Int(n) => {
            if *n >= -9223372036854775808i128 && *n <= 9223372036854775807i128 {
                Some(*n as i64)
            } else {
                None
            }
        },
        _ => None,
    }
}

/// The ignored-rule statistics of one parsed document.
pub fn zally_ignore_stats(doc: &YamlValue) -> (r: HashMap<i64, usize>)
    requires
        zally_readable(*doc),
    ensures
        r@ == zally_stats(*doc),
{
    let (stats, _keys) = zally_stats_and_keys(doc);
    stats
}

/// The statistics of one document, with their rules listed once each.
fn zally_stats_and_keys(doc: &YamlValue) -> (r: (HashMap<i64, usize>, Vec<i64>))
    requires
        zally_readable(*doc),
    ensures
        r.0@ == zally_stats(*doc),
        r.1@.no_duplicates(),
        forall|k: i64| #[trigger] r.1@.contains(k) <==> r.0@.contains_key(k),
{
    let paths: &Vec<(YamlValue, YamlValue)> = match doc.get("paths") {
        Some(YamlValue::Mapping(p)) => p,
        _ => {
            proof {
                assert(false);
            }
            return (HashMap::new(), Vec::new());
        },
    };
    let ghost all = zally_paths(*doc);
    assert(paths@ == all);
    let mut stats: HashMap<i64, usize> = HashMap::new();
    let mut keys: Vec<i64> = Vec::new();
    match doc.get("x-zally-ignore") {
        Some(YamlValue::Sequence(items)) => {
            let mut i: usize = 0;
            while i < items.len()
                invariant
                    i <= items@.len(),
                    items@ == ignore_list(*doc),
                    forall|k: i64| #[trigger] stats@.contains_key(k) <==> exists|j: int| 0 <= j < i && as_i64(#[trigger] items@[j]) == Some(k),
                    forall|k: i64| #[trigger] stats@.contains_key(k) ==> stats@[k] == paths@.len(),
                    keys@.no_duplicates(),
                    forall|k: i64| #[trigger] keys@.contains(k) <==> stats@.contains_key(k),
                decreases items@.len() - i,
            {
                match yaml_as_i64(&items[i]) {
                    Some(n) => {
                        if !stats.contains_key(&n) {
                            proof {
                                lemma_push_contains(keys@, n);
                                lemma_push_no_duplicates(keys@, n);
                            }
                            keys.push(n);
                        }
                        stats.insert(n, paths.len());
                    },
                    None => {},
                }
                i = i + 1;
            }
        },
        Some(_) => {
            proof {
                assert(false);
            }
        },
        None => {
            proof {
                assert(ignore_list(*doc) =~= seq![]);
            }
        },
    }
    assert(forall|k: i64| #[trigger] stats@.contains_key(k) <==> is_global_code(*doc, k));
    // per-path counts, with the codes in order of first appearance
    let mut counts: HashMap<i64, usize> = HashMap::new();
    let mut codes: Vec<i64> = Vec::new();
    let ghost mut seen: Seq<i64> = seq![];
    let mut p: usize = 0;
    while p < paths.len()
        invariant
            p <= paths@.len(),
            paths@ == all,
            zally_readable(*doc),
            all == zally_paths(*doc),
            seen == path_codes(all.subrange(0, p as int)),
            forall|k: i64| #[trigger] counts@.contains_key(k) <==> count_of(seen, k) > 0,
            forall|k: i64| #[trigger] counts@.contains_key(k) ==> counts@[k] == count_of(seen, k),
            forall|k: i64| counts@.contains_key(k) <==> codes@.contains(k),
        decreases paths@.len() - p,
    {
        proof {
            assert(all.subrange(0, p + 1).drop_last() =~= all.subrange(0, p as int));
            assert(all.subrange(0, p + 1).last() == all[p as int]);
            lemma_path_codes_prefix_len(all, p + 1);
        }
        let ghost next = path_codes(all.subrange(0, p + 1));
        let ghost base = seen;
        match paths[p].1.get("x-zally-ignore") {
            Some(YamlValue::Sequence(items)) => {
                let ghost codes_here = items@.map_values(|e: YamlValue| zally_code(e));
                assert(next == base + codes_here);
                let mut j: usize = 0;
                while j < items.len()
                    invariant
                        j <= items@.len(),
                        codes_here == items@.map_values(|e: YamlValue| zally_code(e)),
                        next == base + codes_here,
                        next.len() <= usize::MAX,
                        seen == base + codes_here.subrange(0, j as int),
                        forall|k: i64| #[trigger] counts@.contains_key(k) <==> count_of(seen, k) > 0,
                        forall|k: i64| #[trigger] counts@.contains_key(k) ==> counts@[k] == count_of(seen, k),
                        forall|k: i64| counts@.contains_key(k) <==> codes@.contains(k),
                    decreases items@.len() - j,
                {
                    let code: i64 = match yaml_as_i64(&items[j]) {
                        Some(n) => n,
                        None => -1,
                    };
                    proof {
                        lemma_count_of_push(seen, code, code);
                        assert(base + codes_here.subrange(0, j + 1) =~= seen.push(code));
                        assert(seen.push(code).len() <= next.len()) by {
                            assert(seen.push(code).len() == base.len() + j + 1);
                        }
                        lemma_count_of_le_len(seen.push(code), code);
                        assert forall|k: i64| k != code implies count_of(seen.push(code), k) == count_of(seen, k) by {
                            lemma_count_of_push(seen, code, k);
                        }
                    }
                    let known = counts.get(&code);
                    let ghost old_codes = codes@;
                    let ghost old_counts = counts@;
                    match known {
                        Some(c) => {
                            let c1 = *c + 1;
                            counts.insert(code, c1);
                        },
                        None => {
                            counts.insert(code, 1);
                            codes.push(code);
                            proof {
                                assert(codes@[codes@.len() - 1] == code);
                                assert forall|k: i64| old_codes.contains(k) implies codes@.contains(k) by {
                                    let w = choose|w: int| 0 <= w < old_codes.len() && old_codes[w] == k;
                                    assert(codes@[w] == k);
                                }
                                assert forall|k: i64| codes@.contains(k) && k != code implies old_codes.contains(k) by {
                                    let w = choose|w: int| 0 <= w < codes@.len() && codes@[w] == k;
                                    assert(old_codes[w] == k);
                                }
                            }
                        },
                    }
                    proof {
                        assert forall|k: i64| counts@.contains_key(k) <==> codes@.contains(k) by {
                            if k != code {
                                assert(counts@.contains_key(k) == old_counts.contains_key(k));
                                assert(codes@.contains(k) == old_codes.contains(k));
                            } else {
                                assert(counts@.contains_key(k));
                                assert(codes@.contains(k));
                            }
                        }
                        seen = seen.push(code);
                    }
                    j = j + 1;
                }
                proof {
                    assert(codes_here.subrange(0, items@.len() as int) =~= codes_here);
                }
            },
            _ => {
                proof {
                    assert(ignore_list(all[p as int].1) =~= seq![]);
                    assert(next =~= base);
                }
            },
        }
        p = p + 1;
    }
    proof {
        assert(all.subrange(0, paths@.len() as int) =~= all);
    }
    // merge: per-path counts for the rules the document-wide list does not name
    let mut c: usize = 0;
    while c < codes.len()
        invariant
            c <= codes@.len(),
            forall|k: i64| counts@.contains_key(k) <==> codes@.contains(k),
            forall|k: i64| #[trigger] counts@.contains_key(k) <==> count_of(seen, k) > 0,
            forall|k: i64| #[trigger] counts@.contains_key(k) ==> counts@[k] == count_of(seen, k),
            seen == path_codes(all),
            all == zally_paths(*doc),
            paths@ == all,
            forall|k: i64| #[trigger] stats@.contains_key(k) <==> (is_global_code(*doc, k) || exists|j: int| 0 <= j < c && codes@[j] == k),
            forall|k: i64| #[trigger] stats@.contains_key(k) ==> stats@[k] == zally_stats(*doc)[k],
            keys@.no_duplicates(),
            forall|k: i64| #[trigger] keys@.contains(k) <==> stats@.contains_key(k),
        decreases codes@.len() - c,
    {
        let code = codes[c];
        if !stats.contains_key(&code) {
            proof {
                lemma_push_contains(keys@, code);
                lemma_push_no_duplicates(keys@, code);
            }
            keys.push(code);
            let n = match counts.get(&code) {
                Some(n) => *n,
                None => {
                    proof {
                        assert(codes@.contains(code));
                    }
                    0
                },
            };
            stats.insert(code, n);
        }
        c = c + 1;
    }
    proof {
        assert forall|k: i64| #[trigger] stats@.contains_key(k) <==> zally_stats(*doc).contains_key(k) by {
            if count_of(seen, k) > 0 {
                assert(counts@.contains_key(k));
                assert(codes@.contains(k));
                let w = choose|w: int| 0 <= w < codes@.len() && codes@[w] == k;
                assert(stats@.contains_key(k));
            }
            if stats@.contains_key(k) && !is_global_code(*doc, k) {
                let w = choose|w: int| 0 <= w < c && codes@[w] == k;
                assert(codes@.contains(k));
                assert(counts@.contains_key(k));
            }
        }
        assert(stats@ =~= zally_stats(*doc));
    }
    (stats, keys)
}

/// The text has a first YAML document.
pub open spec fn has_first_document(text: Seq<char>) -> bool {
    yaml_rust_documents(text) matches Some(d) && d.len() > 0
}

/// The first YAML document of a text.
pub open spec fn first_document(text: Seq<char>) -> YamlValue {
    yaml_rust_documents(text).unwrap()[0]
}

/// The text's first document has the shape the ignored-rule statistics read.
pub open spec fn zally_text_readable(text: Seq<char>) -> bool {
    has_first_document(text) && zally_readable(first_document(text))
}

/// Loads the first YAML document of a text.
pub fn first_yaml_document(text: &str) -> (r: Option<YamlValue>)
    ensures
        r is Some <==> has_first_document(text@),
        r matches Some(d) ==> d == first_document(text@),
{
    match load_yaml_documents(text) {
        Some(docs) => {
            let mut docs = docs;
            if docs.len() > 0 {
                Some(docs.remove(0))
            } else {
                None
            }
        },
        None => None,
    }
}

/// Whether a parsed document has the shape the ignored-rule statistics read.
pub fn check_zally_readable(doc: &YamlValue) -> (r: bool)
    ensures
        r == zally_readable(*doc),
{
    match doc {
        YamlValue::Mapping(_) => {},
        _ => {
            return false;
        },
    }
    let paths: &Vec<(YamlValue, YamlValue)> = match doc.get("paths") {
        Some(YamlValue::Mapping(p)) => p,
        _ => {
            return false;
        },
    };
    match doc.get("x-zally-ignore") {
        Some(YamlValue::Sequence(_)) => {},
        Some(_) => {
            return false;
        },
        None => {},
    }
    let ghost all = zally_paths(*doc);
    assert(paths@ == all);
    let mut total: usize = 0;
    let mut i: usize = 0;
    while i < paths.len()
        invariant
            i <= paths@.len(),
            paths@ == all,
            all == zally_paths(*doc),
            total == path_codes(all.subrange(0, i as int)).len(),
            forall|j: int| 0 <= j < i ==> {
                &&& (#[trigger] all[j]).1 is Mapping
                &&& (yaml_get(all[j].1, "x-zally-ignore"@) matches Some(z) ==> z is Sequence)
            },
        decreases paths@.len() - i,
    {
        proof {
            assert(all.subrange(0, i + 1).drop_last() =~= all.subrange(0, i as int));
            assert(all.subrange(0, i + 1).last() == all[i as int]);
        }
        let item = &paths[i].1;
        match item {
            YamlValue::Mapping(_) => {},
            _ => {
                return false;
            },
        }
        match item.get("x-zally-ignore") {
            Some(YamlValue::Sequence(list)) => {
                match total.checked_add(list.len()) {
                    Some(t) => {
                        total = t;
                    },
                    None => {
                        proof {
                            lemma_path_codes_prefix_len(all, i + 1);
                        }
                        return false;
                    },
                }
            },
            Some(_) => {
                return false;
            },
            None => {},
        }
        i = i + 1;
    }
    proof {
        assert(all.subrange(0, paths@.len() as int) =~= all);
    }
    true
}

/// The ignored-rule statistics of a specification text.
pub fn get_zally_ignore_metrics(spec: &str, spec_name: &str) -> (r: HashMap<i64, usize>)
    requires
        zally_text_readable(spec@),
    ensures
        r@ == zally_stats(first_document(spec@)),
{
    match first_yaml_document(spec) {
        Some(doc) => zally_ignore_stats(&doc),
        None => {
            proof {
                assert(false);
            }
            HashMap::new()
        },
    }
}

/// The ignored-rule statistics of a specification text, or `None` when its
/// first document does not have the shape that the statistics read.
pub fn try_get_zally_ignore_metrics(spec: &str, spec_name: &str) -> (r: Option<HashMap<i64, usize>>)
    ensures
        r is Some <==> zally_text_readable(spec@),
        r matches Some(m) ==> m@ == zally_stats(first_document(spec@)),
{
    match first_yaml_document(spec) {
        Some(doc) => {
            if check_zally_readable(&doc) {
                Some(get_zally_ignore_metrics(spec, spec_name))
            } else {
                None
            }
        },
        None => None,
    }
}

/// The sum, over the documents that name rule `k`, of their statistic for it.
pub open spec fn zally_total(docs: Seq<YamlValue>, k: i64) -> nat
    decreases docs.len(),
{
    if docs.len() == 0 {
        0
    } else {
        zally_total(docs.drop_last(), k) + if zally_stats(docs.last()).contains_key(k) {
            zally_stats(docs.last())[k] as nat
        } else {
            0nat
        }
    }
}

/// Some document names rule `k`.
pub open spec fn zally_named(docs: Seq<YamlValue>, k: i64) -> bool {
    exists|i: int| 0 <= i < docs.len() && (#[trigger] zally_stats(docs[i])).contains_key(k)
}

/// The statistics of several documents summed rule by rule.
pub open spec fn merged_zally(docs: Seq<YamlValue>) -> Map<i64, usize> {
    Map::new(|k: i64| zally_named(docs, k), |k: i64| zally_total(docs, k) as usize)
}

/// The first documents of several texts.
pub open spec fn first_documents(texts: Seq<String>) -> Seq<YamlValue> {
    texts.map_values(|t: String| first_document(t@))
}

pub proof fn lemma_zally_total_prefix(docs: Seq<YamlValue>, i: int, k: i64)
    requires
        0 <= i <= docs.len(),
    ensures
        zally_total(docs.subrange(0, i), k) <= zally_total(docs, k),
    decreases docs.len(),
{
    if i == docs.len() {
        assert(docs.subrange(0, i) =~= docs);
    } else {
        assert(docs.drop_last().subrange(0, i) =~= docs.subrange(0, i));
        lemma_zally_total_prefix(docs.drop_last(), i, k);
    }
}

pub proof fn lemma_zally_total_absent(docs: Seq<YamlValue>, k: i64)
    requires
        !zally_named(docs, k),
    ensures
        zally_total(docs, k) == 0,
    decreases docs.len(),
{
    if docs.len() > 0 {
        assert(!zally_named(docs.drop_last(), k)) by {
            if zally_named(docs.drop_last(), k) {
                let w = choose|w: int| 0 <= w < docs.drop_last().len() && (#[trigger] zally_stats(docs.drop_last()[w])).contains_key(k);
                assert(zally_stats(docs[w]).contains_key(k));
            }
        }
        lemma_zally_total_absent(docs.drop_last(), k);
    }
}

/// The number of times rule `k` is counted in `m` (0 when it is absent).
pub open spec fn zally_count(m: Map<i64, usize>, k: i64) -> nat {
    if m.contains_key(k) {
        m[k] as nat
    } else {
        0
    }
}

proof fn lemma_zally_total_concat(x: Seq<YamlValue>, y: Seq<YamlValue>, k: i64)
    ensures
        zally_total(x + y, k) == zally_total(x, k) + zally_total(y, k),
    decreases y.len(),
{
    if y.len() == 0 {
        assert(x + y =~= x);
    } else {
        assert((x + y).drop_last() =~= x + y.drop_last());
        assert((x + y).last() == y.last());
        lemma_zally_total_concat(x, y.drop_last(), k);
    }
}

proof fn lemma_zally_named_concat(x: Seq<YamlValue>, y: Seq<YamlValue>, k: i64)
    ensures
        zally_named(x + y, k) <==> zally_named(x, k) || zally_named(y, k),
{
    if zally_named(x + y, k) {
        let i = choose|i: int| 0 <= i < (x + y).len() && (#[trigger] zally_stats((x + y)[i])).contains_key(k);
        if i < x.len() {
            assert((x + y)[i] == x[i]);
            assert(zally_stats(x[i]).contains_key(k));
        } else {
            assert((x + y)[i] == y[i - x.len()]);
            assert(zally_stats(y[i - x.len()]).contains_key(k));
        }
    }
    if zally_named(x, k) {
        let i = choose|i: int| 0 <= i < x.len() && (#[trigger] zally_stats(x[i])).contains_key(k);
        assert((x + y)[i] == x[i]);
        assert(zally_stats((x + y)[i]).contains_key(k));
    }
    if zally_named(y, k) {
        let i = choose|i: int| 0 <= i < y.len() && (#[trigger] zally_stats(y[i])).contains_key(k);
        assert((x + y)[x.len() + i] == y[i]);
        assert(zally_stats((x + y)[x.len() + i]).contains_key(k));
    }
}

/// The statistics of two lists of specification texts add up: the count of
/// a rule over both lists is its count over the first plus its count over
/// the second (when that count fits a `usize`, as `get_zally_ignore`
/// requires to succeed).
pub proof fn law_zally_counts_add_up(a: Seq<String>, b: Seq<String>, k: i64)
    requires
        zally_total(first_documents(a + b), k) <= usize::MAX,
    ensures
        zally_count(merged_zally(first_documents(a + b)), k)
            == zally_count(merged_zally(first_documents(a)), k) + zally_count(merged_zally(first_documents(b)), k),
{
    let x = first_documents(a);
    let y = first_documents(b);
    assert(first_documents(a + b) =~= x + y);
    lemma_zally_total_concat(x, y, k);
    lemma_zally_named_concat(x, y, k);
    if !zally_named(x, k) {
        lemma_zally_total_absent(x, k);
    }
    if !zally_named(y, k) {
        lemma_zally_total_absent(y, k);
    }
}

/// The statistics of one specification text are those of its document; of
/// no text, none.
pub proof fn law_zally_of_one_text(t: String)
    ensures
        merged_zally(first_documents(seq![t])) == zally_stats(first_document(t@)),
        merged_zally(first_documents(Seq::<String>::empty())).dom() =~= Set::<i64>::empty(),
{
    let d = first_documents(seq![t]);
    assert(d =~= seq![first_document(t@)]);
    assert forall|k: i64| #[trigger] merged_zally(d).contains_key(k) <==> zally_stats(first_document(t@)).contains_key(k) by {
        if zally_stats(first_document(t@)).contains_key(k) {
            assert(zally_stats(d[0]).contains_key(k));
        }
    }
    assert forall|k: i64| #[trigger] merged_zally(d).contains_key(k) implies merged_zally(d)[k] == zally_stats(first_document(t@))[k] by {
        assert(d.drop_last() =~= Seq::<YamlValue>::empty());
        assert(zally_total(d.drop_last(), k) == 0);
        assert(d.last() == first_document(t@));
        let i = choose|i: int| 0 <= i < d.len() && (#[trigger] zally_stats(d[i])).contains_key(k);
        assert(i == 0);
        assert(zally_total(d, k) == zally_stats(first_document(t@))[k] as nat);
    }
    assert(merged_zally(d) =~= zally_stats(first_document(t@)));
    let e = first_documents(Seq::<String>::empty());
    assert forall|k: i64| !(#[trigger] merged_zally(e).contains_key(k)) by {
        assert(e.len() == 0);
    }
}

/// The ignored-rule statistics of several specification texts, summed rule
/// by rule. `None` when a text does not have the shape the statistics read
/// or a sum does not fit a `usize`.
pub fn get_zally_ignore(spec_texts: &Vec<String>) -> (r: Option<HashMap<i64, usize>>)
    ensures
        r is Some <==> (forall|i: int| 0 <= i < spec_texts@.len() ==> zally_text_readable(#[trigger] spec_texts@[i]@))
            && (forall|k: i64| #[trigger] zally_total(first_documents(spec_texts@), k) <= usize::MAX),
        r matches Some(m) ==> m@ == merged_zally(first_documents(spec_texts@)),
{
    let ghost docs = first_documents(spec_texts@);
    let mut merged: HashMap<i64, usize> = HashMap::new();
    let mut i: usize = 0;
    while i < spec_texts.len()
        invariant
            i <= spec_texts@.len(),
            docs == first_documents(spec_texts@),
            forall|j: int| 0 <= j < i ==> zally_text_readable(#[trigger] spec_texts@[j]@),
            forall|k: i64| #[trigger] merged@.contains_key(k) <==> zally_named(docs.subrange(0, i as int), k),
            forall|k: i64| #[trigger] merged@.contains_key(k) ==> merged@[k] == zally_total(docs.subrange(0, i as int), k),
        decreases spec_texts@.len() - i,
    {
        let doc = match first_yaml_document(spec_texts[i].as_str()) {
            Some(d) => d,
            None => {
                return None;
            },
        };
        if !check_zally_readable(&doc) {
            return None;
        }
        assert(doc == docs[i as int]);
        let (stats, keys) = zally_stats_and_keys(&doc);
        let ghost prefix = docs.subrange(0, i as int);
        let ghost next = docs.subrange(0, i + 1);
        proof {
            assert(next.drop_last() =~= prefix);
            assert(next.last() == docs[i as int]);
        }
        let mut c: usize = 0;
        while c < keys.len()
            invariant
                c <= keys@.len(),
                keys@.no_duplicates(),
                forall|k: i64| #[trigger] keys@.contains(k) <==> stats@.contains_key(k),
                stats@ == zally_stats(docs[i as int]),
                next.drop_last() == prefix,
                next.last() == docs[i as int],
                next == docs.subrange(0, i + 1),
                prefix == docs.subrange(0, i as int),
                docs.len() == spec_texts@.len(),
                docs == first_documents(spec_texts@),
                i < spec_texts@.len(),
                forall|k: i64| #[trigger] merged@.contains_key(k) <==> (zally_named(prefix, k) || keys@.subrange(0, c as int).contains(k)),
                forall|k: i64| #[trigger] merged@.contains_key(k) ==> merged@[k] == zally_total(prefix, k) + if keys@.subrange(0, c as int).contains(k) {
                    stats@[k] as nat
                } else {
                    0nat
                },
            decreases keys@.len() - c,
        {
            let k = keys[c];
            proof {
                assert(keys@.subrange(0, c + 1) =~= keys@.subrange(0, c as int).push(k));
                lemma_push_contains(keys@.subrange(0, c as int), k);
                assert(!keys@.subrange(0, c as int).contains(k)) by {
                    if keys@.subrange(0, c as int).contains(k) {
                        let w = choose|w: int| 0 <= w < c && keys@.subrange(0, c as int)[w] == k;
                        assert(keys@[w] == keys@[c as int]);
                    }
                }
                assert(stats@.contains_key(k)) by {
                    assert(keys@.contains(k));
                }
            }
            let add = match stats.get(&k) {
                Some(v) => *v,
                None => {
                    proof {
                        assert(false);
                    }
                    0
                },
            };
            let current: usize = match merged.get(&k) {
                Some(v) => *v,
                None => {
                    proof {
                        if zally_named(prefix, k) {
                            assert(merged@.contains_key(k));
                        }
                        lemma_zally_total_absent(prefix, k);
                    }
                    0
                },
            };
            match current.checked_add(add) {
                Some(sum) => {
                    merged.insert(k, sum);
                },
                None => {
                    proof {
                        assert(current == zally_total(prefix, k));
                        assert(add == zally_stats(next.last())[k]);
                        assert(zally_stats(next.last()).contains_key(k));
                        assert(zally_total(next, k) == zally_total(next.drop_last(), k) + zally_stats(next.last())[k] as nat);
                        lemma_zally_total_prefix(docs, i + 1, k);
                        assert(docs.subrange(0, i + 1) == next);
                        assert(zally_total(docs, k) > usize::MAX);
                    }
                    return None;
                },
            }
            proof {
                assert forall|k2: i64| #[trigger] merged@.contains_key(k2) <==> (zally_named(prefix, k2) || keys@.subrange(0, c + 1).contains(k2)) by {
                    if k2 != k {
                        assert(keys@.subrange(0, c + 1).contains(k2) == keys@.subrange(0, c as int).contains(k2));
                    }
                }
            }
            c = c + 1;
        }
        proof {
            assert(keys@.subrange(0, keys@.len() as int) =~= keys@);
            assert forall|k: i64| #[trigger] merged@.contains_key(k) <==> zally_named(next, k) by {
                if zally_named(next, k) && !zally_named(prefix, k) {
                    let w = choose|w: int| 0 <= w < next.len() && (#[trigger] zally_stats(next[w])).contains_key(k);
                    if w < i {
                        assert(prefix[w] == next[w]);
                    }
                }
                if zally_named(prefix, k) {
                    let w = choose|w: int| 0 <= w < prefix.len() && (#[trigger] zally_stats(prefix[w])).contains_key(k);
                    assert(next[w] == prefix[w]);
                }
                if keys@.contains(k) {
                    assert(zally_stats(next[i as int]).contains_key(k));
                }
            }
        }
        i = i + 1;
    }
    proof {
        assert(docs.subrange(0, spec_texts@.len() as int) =~= docs);
        assert forall|k: i64| #[trigger] zally_total(docs, k) <= usize::MAX by {
            if !zally_named(docs, k) {
                lemma_zally_total_absent(docs, k);
            } else {
                assert(merged@.contains_key(k));
            }
        }
        assert(merged@ =~= merged_zally(docs));
    }
    Some(merged)
}

/// The document has the shape the per-audience count reads: a mapping with
/// `info` and `paths` mappings, and an `info.x-audience` that is absent or a
/// string (the reading panics otherwise).
pub open spec fn audience_readable(doc: YamlValue) -> bool {
    &&& doc is Mapping
    &&& yaml_get(doc, "info"@) matches Some(YamlValue::Mapping(_))
    &&& yaml_get(doc, "paths"@) matches Some(YamlValue::Mapping(_))
    &&& absent_or_str(yaml_get(yaml_get(doc, "info"@).unwrap(), "x-audience"@))
}

/// The audience of a document (`no audience` when it names none) with its
/// number of paths.
pub open spec fn audience_entry(doc: YamlValue) -> (Seq<char>, nat) {
    (str_or(yaml_get(yaml_get(doc, "info"@).unwrap(), "x-audience"@), "no audience"@), mapping_len(yaml_get(doc, "paths"@)))
}

/// The audience and number of paths of a parsed document.
pub fn audience_endpoints(doc: &YamlValue) -> (r: (String, usize))
    requires
        audience_readable(*doc),
    ensures
        (r.0@, r.1 as nat) == audience_entry(*doc),
{
    let info = match doc.get("info") {
        Some(i) => i,
        None => {
            proof {
                assert(false);
            }
            return (String::new(), 0);
        },
    };
    let num_of_endpoints = match doc.get("paths") {
        Some(YamlValue::Mapping(p)) => p.len(),
        _ => {
            proof {
                assert(false);
            }
            0
        },
    };
    let audience_name = match info.get("x-audience") {
        Some(YamlValue::Str(a)) => a.clone(),
        Some(_) => {
            proof {
                assert(false);
            }
            String::new()
        },
        None => "no audience".to_owned(),
    };
    (audience_name, num_of_endpoints)
}

/// Whether a parsed document has the shape the per-audience count reads.
pub fn check_audience_readable(doc: &YamlValue) -> (r: bool)
    ensures
        r == audience_readable(*doc),
{
    match doc {
        YamlValue::Mapping(_) => {},
        _ => {
            return false;
        },
    }
    let info_ok = match doc.get("info") {
        Some(YamlValue::Mapping(_)) => true,
        _ => false,
    };
    let paths_ok = match doc.get("paths") {
        Some(YamlValue::Mapping(_)) => true,
        _ => false,
    };
    if !info_ok || !paths_ok {
        return false;
    }
    match doc.get("info") {
        Some(info) => match info.get("x-audience") {
            Some(YamlValue::Str(_)) => true,
            Some(_) => false,
            None => true,
        },
        None => false,
    }
}

/// The text's first document has the shape the per-audience count reads.
pub open spec fn audience_text_readable(text: Seq<char>) -> bool {
    has_first_document(text) && audience_readable(first_document(text))
}

/// The audience of a specification text with its number of paths: a single
/// entry.
pub fn get_endpoints_num_per_audience_metrics(spec: &str, spec_name: &str) -> (r: Vec<(String, usize)>)
    requires
        audience_text_readable(spec@),
    ensures
        entries_view(r@) == seq![audience_entry(first_document(spec@))],
{
    let doc = match first_yaml_document(spec) {
        Some(d) => d,
        None => {
            proof {
                assert(false);
            }
            return Vec::new();
        },
    };
    let mut stats: Vec<(String, usize)> = Vec::new();
    stats.push(audience_endpoints(&doc));
    proof {
        assert(entries_view(stats@) =~= seq![audience_entry(first_document(spec@))]);
    }
    stats
}

/// The audience of a specification text with its number of paths, or
/// `None` when its first document does not have the shape read.
pub fn try_get_endpoints_num_per_audience_metrics(spec: &str, spec_name: &str) -> (r: Option<Vec<(String, usize)>>)
    ensures
        r is Some <==> audience_text_readable(spec@),
        r matches Some(v) ==> entries_view(v@) == seq![audience_entry(first_document(spec@))],
{
    match first_yaml_document(spec) {
        Some(doc) => {
            if check_audience_readable(&doc) {
                Some(get_endpoints_num_per_audience_metrics(spec, spec_name))
            } else {
                None
            }
        },
        None => None,
    }
}

/// The audience entries of several texts.
pub open spec fn audience_entries(texts: Seq<String>) -> Seq<(Seq<char>, nat)> {
    texts.map_values(|t: String| audience_entry(first_document(t@)))
}

/// The number of paths per audience over several specification texts.
/// `None` when a text does not have the shape the count reads or a total
/// does not fit a `usize`.
pub fn get_endpoints_num_per_audience(spec_texts: &Vec<String>) -> (r: Option<Vec<(String, usize)>>)
    ensures
        r is Some <==> (forall|i: int| 0 <= i < spec_texts@.len() ==> audience_text_readable(#[trigger] spec_texts@[i]@))
            && totals_fit(audience_entries(spec_texts@)),
        r matches Some(t) ==> is_tally_of(t@, audience_entries(spec_texts@)),
{
    let mut items: Vec<(String, usize)> = Vec::new();
    let mut i: usize = 0;
    while i < spec_texts.len()
        invariant
            i <= spec_texts@.len(),
            forall|j: int| 0 <= j < i ==> audience_text_readable(#[trigger] spec_texts@[j]@),
            entries_view(items@) == audience_entries(spec_texts@).subrange(0, i as int),
        decreases spec_texts@.len() - i,
    {
        let doc = match first_yaml_document(spec_texts[i].as_str()) {
            Some(d) => d,
            None => {
                return None;
            },
        };
        if !check_audience_readable(&doc) {
            return None;
        }
        let entry = audience_endpoints(&doc);
        let ghost prev = items@;
        items.push(entry);
        proof {
            lemma_entries_view_push(prev, entry);
            lemma_prefix_push(audience_entries(spec_texts@), i as int);
            assert(doc == first_document(spec_texts@[i as int]@));
        }
        i = i + 1;
    }
    proof {
        assert(audience_entries(spec_texts@).subrange(0, spec_texts@.len() as int) =~= audience_entries(spec_texts@));
    }
    tally(&items)
}

/// The subdomain entries of specs: each spec's domain with its number of paths.
pub open spec fn subdomain_entries(specs: Seq<SpecItem>) -> Seq<(Seq<char>, nat)> {
    specs.map_values(|s: SpecItem| (s.handler.domain_text(), s.handler.paths_list().len()))
}

/// Every spec can give its domain and its paths.
pub open spec fn specs_domains_readable(specs: Seq<SpecItem>) -> bool {
    forall|i: int| 0 <= i < specs.len() ==> (#[trigger] specs[i]).handler.pre_get_domain() && specs[i].handler.pre_get_paths()
}

/// The number of paths per domain over several specs, domains in order of
/// first appearance.
pub fn get_endpoints_num_per_subdomain(all_specs: &Vec<SpecItem>) -> (r: Vec<(String, usize)>)
    requires
        specs_domains_readable(all_specs@),
        totals_fit(subdomain_entries(all_specs@)),
    ensures
        is_tally_of(r@, subdomain_entries(all_specs@)),
{
    let mut items: Vec<(String, usize)> = Vec::new();
    let mut i: usize = 0;
    while i < all_specs.len()
        invariant
            i <= all_specs@.len(),
            specs_domains_readable(all_specs@),
            entries_view(items@) == subdomain_entries(all_specs@).subrange(0, i as int),
        decreases all_specs@.len() - i,
    {
        let base_url = all_specs[i].get_domain();
        let num = all_specs[i].get_paths().len();
        let ghost prev = items@;
        let entry = (base_url, num);
        items.push(entry);
        proof {
            lemma_entries_view_push(prev, entry);
            lemma_prefix_push(subdomain_entries(all_specs@), i as int);
        }
        i = i + 1;
    }
    proof {
        assert(subdomain_entries(all_specs@).subrange(0, all_specs@.len() as int) =~= subdomain_entries(all_specs@));
    }
    match tally(&items) {
        Some(t) => t,
        None => {
            proof {
                assert(false);
            }
            Vec::new()
        },
    }
}

/// A specification file that could not be read as a specification.
#[derive(Debug, Clone)]
pub struct SpecInError {
    pub file_path: String,
    pub reason: String,
}

/// A file found in a catalog: its path, the `Debug` rendering of that path,
/// and its content.
pub struct CatalogFile {
    pub path: String,
    pub display_path: String,
    pub content: String,
}

/// The file reads as a specification.
pub open spec fn file_reads(f: CatalogFile) -> bool {
    from_str_error(f.path@, f.content@) is None
}

/// The files that read as specifications, in order.
pub open spec fn readable_files(files: Seq<CatalogFile>) -> Seq<CatalogFile>
    decreases files.len(),
{
    if files.len() == 0 {
        seq![]
    } else if file_reads(files.last()) {
        readable_files(files.drop_last()).push(files.last())
    } else {
        readable_files(files.drop_last())
    }
}

/// The files that do not read as specifications, in order.
pub open spec fn unreadable_files(files: Seq<CatalogFile>) -> Seq<CatalogFile>
    decreases files.len(),
{
    if files.len() == 0 {
        seq![]
    } else if !file_reads(files.last()) {
        unreadable_files(files.drop_last()).push(files.last())
    } else {
        unreadable_files(files.drop_last())
    }
}

/// `spec` is what `from_str` returns for `file` in `catalog`.
pub open spec fn spec_of_file(spec: SpecItem, file: CatalogFile, catalog: Catalog) -> bool {
    &&& spec.path@ == file.path@
    &&& spec.catalog_id@ == catalog.catalog_id@
    &&& spec.catalog_dir@ == catalog.catalog_dir@
    &&& spec.well_formed()
    &&& spec.spec_type == match detected_format(file.content@) {
        Some(0) => SpecType::OpenAPIv3,
        Some(1) => SpecType::AsyncAPIv1,
        _ => SpecType::AsyncAPIv2,
    }
    &&& match spec.handler {
        SpecHandlerKind::OpenAPIv3(h) => openapi_document(file.content@) == Some(h.spec),
        SpecHandlerKind::AsyncAPIv1(h) => h.spec@ == file.content@,
        SpecHandlerKind::AsyncAPIv2(h) => h.spec@ == file.content@,
    }
}

/// `error` records `file`, which does not read as a specification.
pub open spec fn error_of_file(error: SpecInError, file: CatalogFile) -> bool {
    &&& error.file_path@ == file.display_path@
    &&& error.reason@ == debug_text(from_str_error(file.path@, file.content@).unwrap())
}

/// Reads the files of one catalog: the specifications, and the files in
/// error with the reason.
pub fn read_catalog_files(catalog: &Catalog, files: &Vec<CatalogFile>) -> (r: (Vec<SpecItem>, Vec<SpecInError>))
    ensures
        r.0@.len() == readable_files(files@).len(),
        forall|i: int| 0 <= i < r.0@.len() ==> spec_of_file(#[trigger] r.0@[i], readable_files(files@)[i], *catalog),
        r.1@.len() == unreadable_files(files@).len(),
        forall|i: int| 0 <= i < r.1@.len() ==> error_of_file(#[trigger] r.1@[i], unreadable_files(files@)[i]),
{
    let mut specs: Vec<SpecItem> = Vec::new();
    let mut specs_in_error: Vec<SpecInError> = Vec::new();
    let mut i: usize = 0;
    while i < files.len()
        invariant
            i <= files@.len(),
            specs@.len() == readable_files(files@.subrange(0, i as int)).len(),
            forall|j: int| 0 <= j < specs@.len() ==> spec_of_file(#[trigger] specs@[j], readable_files(files@.subrange(0, i as int))[j], *catalog),
            specs_in_error@.len() == unreadable_files(files@.subrange(0, i as int)).len(),
            forall|j: int| 0 <= j < specs_in_error@.len() ==> error_of_file(#[trigger] specs_in_error@[j], unreadable_files(files@.subrange(0, i as int))[j]),
        decreases files@.len() - i,
    {
        let ghost prefix = files@.subrange(0, i as int);
        let ghost next = files@.subrange(0, i + 1);
        proof {
            assert(next.drop_last() =~= prefix);
            assert(next.last() == files@[i as int]);
        }
        let file = &files[i];
        let path = file.path.clone();
        match from_str(path, catalog.catalog_id.clone(), catalog.catalog_dir.clone(), file.content.as_str()) {
            Ok(spec) => {
                proof {
                    assert(file_reads(files@[i as int]));
                    assert(spec_of_file(spec, files@[i as int], *catalog));
                }
                specs.push(spec);
            },
            Err(why) => {
                let reason = debug_string(why.as_str());
                specs_in_error.push(SpecInError { file_path: file.display_path.clone(), reason });
            },
        }
        i = i + 1;
    }
    proof {
        assert(files@.subrange(0, files@.len() as int) =~= files@);
    }
    (specs, specs_in_error)
}


/// The errors that were cached, or none.
pub fn errors_or_empty(cached: Option<Vec<SpecInError>>) -> (r: Vec<SpecInError>)
    ensures
        r@ == match cached {
            Some(v) => v@,
            None => Seq::<SpecInError>::empty(),
        },
{
    match cached {
        Some(v) => v,
        None => Vec::new(),
    }
}

/// The files found in error when the catalogs were last read (none when
/// the cache holds none: not read since the last refresh, or evicted).
pub fn list_all_errors(cache: &CatalogCache) -> (r: Vec<SpecInError>)
    ensures
        r@ == match cache.errors_held() {
            Some(e) => e,
            None => Seq::<SpecInError>::empty(),
        },
{
    errors_or_empty(cache.cached_errors())
}

/// `specs` are the specifications that the files of the catalogs give, in
/// order.
pub open spec fn specs_read(specs: Seq<SpecItem>, catalogs: Seq<Catalog>, files: Seq<Vec<CatalogFile>>) -> bool {
    &&& specs.len() == readable_entries(catalogs, files).len()
    &&& forall|i: int| 0 <= i < specs.len() ==> spec_of_file(#[trigger] specs[i], readable_entries(catalogs, files)[i].0, readable_entries(catalogs, files)[i].1)
}

/// `errors` are the files of the catalogs that do not read as
/// specifications, in order.
pub open spec fn errors_read(errors: Seq<SpecInError>, files: Seq<Vec<CatalogFile>>) -> bool {
    &&& errors.len() == unreadable_entries(files).len()
    &&& forall|i: int| 0 <= i < errors.len() ==> error_of_file(#[trigger] errors[i], unreadable_entries(files)[i])
}

/// What a listing of the specifications comes to.
pub enum Listing {
    /// The specifications.
    Specs(Vec<SpecItem>),
    /// The cache holds none: the files of the catalogs are needed.
    NeedFiles,
}

/// The specifications of all the catalogs: those the cache holds, or else
/// those read from the files of the catalogs (`files`, one list per
/// catalog), which are then cached with the files in error, so that the
/// next listing gives them back and `list_all_errors` gives those files.
/// Without the files, a listing that misses the cache asks for them.
pub fn list_specs(cache: &mut CatalogCache, catalogs: &Vec<Catalog>, files: Option<&Vec<Vec<CatalogFile>>>) -> (r: Listing)
    requires
        old(cache).well_formed(),
        files matches Some(f) ==> catalogs@.len() == f@.len(),
    ensures
        final(cache).well_formed(),
        match old(cache).specs_held() {
            Some(s) => r matches Listing::Specs(v) && v@ == s && *final(cache) == *old(cache),
            None => match files {
                None => r is NeedFiles && *final(cache) == *old(cache),
                Some(f) => r matches Listing::Specs(v) && specs_read(v@, catalogs@, f@)
                    && final(cache).specs_held() == Some(v@)
                    && exists|e: Seq<SpecInError>| final(cache).errors_held() == Some(e) && #[trigger] errors_read(e, f@),
            },
        },
{
    match cache.cached_specs() {
        Some(v) => Listing::Specs(v),
        None => match files {
            None => Listing::NeedFiles,
            Some(f) => {
                let (specs, errors) = read_catalogs(catalogs, f);
                cache.store(&specs, &errors);
                proof {
                    assert(errors_read(errors@, f@));
                }
                Listing::Specs(specs)
            },
        },
    }
}

/// The files of every catalog that read as specifications, each with its
/// catalog, catalog after catalog.
pub open spec fn readable_entries(catalogs: Seq<Catalog>, files: Seq<Vec<CatalogFile>>) -> Seq<(CatalogFile, Catalog)>
    decreases catalogs.len(),
{
    if catalogs.len() == 0 || files.len() == 0 {
        seq![]
    } else {
        readable_entries(catalogs.drop_last(), files.drop_last())
            + readable_files(files.last()@).map_values(|f: CatalogFile| (f, catalogs.last()))
    }
}

/// The files of every catalog that do not read as specifications, catalog
/// after catalog.
pub open spec fn unreadable_entries(files: Seq<Vec<CatalogFile>>) -> Seq<CatalogFile>
    decreases files.len(),
{
    if files.len() == 0 {
        seq![]
    } else {
        unreadable_entries(files.drop_last()) + unreadable_files(files.last()@)
    }
}

/// Reads the files of all the catalogs (`files[k]` are those found in
/// `catalogs[k]`): the specifications, and the files in error.
pub fn read_catalogs(catalogs: &Vec<Catalog>, files: &Vec<Vec<CatalogFile>>) -> (r: (Vec<SpecItem>, Vec<SpecInError>))
    requires
        catalogs@.len() == files@.len(),
    ensures
        r.0@.len() == readable_entries(catalogs@, files@).len(),
        forall|i: int| 0 <= i < r.0@.len() ==> spec_of_file(#[trigger] r.0@[i], readable_entries(catalogs@, files@)[i].0, readable_entries(catalogs@, files@)[i].1),
        r.1@.len() == unreadable_entries(files@).len(),
        forall|i: int| 0 <= i < r.1@.len() ==> error_of_file(#[trigger] r.1@[i], unreadable_entries(files@)[i]),
{
    let mut specs: Vec<SpecItem> = Vec::new();
    let mut errors: Vec<SpecInError> = Vec::new();
    let mut k: usize = 0;
    while k < catalogs.len()
        invariant
            k <= catalogs@.len(),
            catalogs@.len() == files@.len(),
            specs@.len() == readable_entries(catalogs@.subrange(0, k as int), files@.subrange(0, k as int)).len(),
            forall|i: int| 0 <= i < specs@.len() ==> spec_of_file(#[trigger] specs@[i],
                readable_entries(catalogs@.subrange(0, k as int), files@.subrange(0, k as int))[i].0,
                readable_entries(catalogs@.subrange(0, k as int), files@.subrange(0, k as int))[i].1),
            errors@.len() == unreadable_entries(files@.subrange(0, k as int)).len(),
            forall|i: int| 0 <= i < errors@.len() ==> error_of_file(#[trigger] errors@[i], unreadable_entries(files@.subrange(0, k as int))[i]),
        decreases catalogs@.len() - k,
    {
        let ghost cs = catalogs@.subrange(0, k + 1);
        let ghost fs = files@.subrange(0, k + 1);
        proof {
            assert(cs.drop_last() =~= catalogs@.subrange(0, k as int));
            assert(fs.drop_last() =~= files@.subrange(0, k as int));
            assert(cs.last() == catalogs@[k as int]);
            assert(fs.last() == files@[k as int]);
        }
        let ghost old_specs = specs@;
        let ghost old_errors = errors@;
        let (mut s, mut e) = read_catalog_files(&catalogs[k], &files[k]);
        let ghost new_specs = s@;
        let ghost new_errors = e@;
        specs.append(&mut s);
        errors.append(&mut e);
        proof {
            let prev = readable_entries(catalogs@.subrange(0, k as int), files@.subrange(0, k as int));
            let added = readable_files(files@[k as int]@).map_values(|f: CatalogFile| (f, catalogs@[k as int]));
            assert(readable_entries(cs, fs) == prev + added);
            assert forall|i: int| 0 <= i < specs@.len() implies spec_of_file(#[trigger] specs@[i],
                readable_entries(cs, fs)[i].0, readable_entries(cs, fs)[i].1) by {
                if i < old_specs.len() {
                    assert(specs@[i] == old_specs[i]);
                } else {
                    assert(specs@[i] == new_specs[i - old_specs.len()]);
                }
            }
            assert(unreadable_entries(fs) == unreadable_entries(files@.subrange(0, k as int)) + unreadable_files(files@[k as int]@));
            assert forall|i: int| 0 <= i < errors@.len() implies error_of_file(#[trigger] errors@[i], unreadable_entries(fs)[i]) by {
                if i < old_errors.len() {
                    assert(errors@[i] == old_errors[i]);
                } else {
                    assert(errors@[i] == new_errors[i - old_errors.len()]);
                }
            }
        }
        k = k + 1;
    }
    proof {
        assert(catalogs@.subrange(0, catalogs@.len() as int) =~= catalogs@);
        assert(files@.subrange(0, files@.len() as int) =~= files@);
    }
    (specs, errors)
}

/// What refreshing a catalog asks of the shell.
#[derive(Debug)]
pub enum RefreshCommand {
    /// Run `bash -c command` (the clone command followed by the catalog's path).
    Clone { command: String },
    /// Run `bash -c command` inside `dir`.
    Pull { dir: String, command: String },
    /// The catalog is not cloned.
    Skip { catalog_id: String, catalog_name: String },
}

/// `cmd` is what refreshing `catalog` runs: at start up (`init`), the clone
/// command followed by a space and the catalog's path where the catalog is
/// to be cloned, nothing otherwise; later, the pull command in the catalog's
/// path.
pub open spec fn refresh_command_of(cmd: RefreshCommand, catalog: Catalog, init: bool) -> bool {
    if init {
        if catalog.catalog_scm_clone {
            cmd matches RefreshCommand::Clone { command }
                && command@ == catalog.catalog_scm_clone_cmd@ + seq![' '] + catalog.catalog_path@
        } else {
            cmd matches RefreshCommand::Skip { catalog_id, catalog_name }
                && catalog_id@ == catalog.catalog_id@ && catalog_name@ == catalog.catalog_name@
        }
    } else {
        cmd matches RefreshCommand::Pull { dir, command }
            && dir@ == catalog.catalog_path@ && command@ == catalog.catalog_scm_pull_cmd@
    }
}

/// The command that refreshes one catalog.
pub fn refresh_command(catalog: &Catalog, init: bool) -> (r: RefreshCommand)
    ensures
        refresh_command_of(r, *catalog, init),
{
    if init {
        if catalog.catalog_scm_clone {
            proof {
                reveal_strlit(" ");
            }
            assert(" "@ == seq![' ']);
            let mut command = catalog.catalog_scm_clone_cmd.clone();
            command.append(" ");
            command.append(catalog.catalog_path.as_str());
            RefreshCommand::Clone { command }
        } else {
            RefreshCommand::Skip { catalog_id: catalog.catalog_id.clone(), catalog_name: catalog.catalog_name.clone() }
        }
    } else {
        RefreshCommand::Pull { dir: catalog.catalog_path.clone(), command: catalog.catalog_scm_pull_cmd.clone() }
    }
}

/// The commands that refresh the catalogs, one per catalog, in order.
pub fn refresh_commands(catalogs: &Vec<Catalog>, init: bool) -> (r: Vec<RefreshCommand>)
    ensures
        r@.len() == catalogs@.len(),
        forall|i: int| 0 <= i < r@.len() ==> refresh_command_of(#[trigger] r@[i], catalogs@[i], init),
{
    let mut cmds: Vec<RefreshCommand> = Vec::new();
    let mut i: usize = 0;
    while i < catalogs.len()
        invariant
            i <= catalogs@.len(),
            cmds@.len() == i,
            forall|j: int| 0 <= j < i ==> refresh_command_of(#[trigger] cmds@[j], catalogs@[j], init),
        decreases catalogs@.len() - i,
    {
        cmds.push(refresh_command(&catalogs[i], init));
        i = i + 1;
    }
    cmds
}


/// The number of paths listed by the specs, all together.
pub open spec fn paths_listed_total(specs: Seq<SpecItem>) -> nat
    decreases specs.len(),
{
    if specs.len() == 0 {
        0
    } else {
        paths_listed_total(specs.drop_last()) + specs.last().handler.paths_list().len()
    }
}

proof fn lemma_subdomain_entries_total(specs: Seq<SpecItem>)
    ensures
        counts_total(subdomain_entries(specs)) == paths_listed_total(specs),
    decreases specs.len(),
{
    if specs.len() > 0 {
        assert(subdomain_entries(specs).drop_last() =~= subdomain_entries(specs.drop_last()));
        lemma_subdomain_entries_total(specs.drop_last());
    }
}

/// The numbers of endpoints per subdomain add up to the number of paths of
/// all the specs.
pub proof fn law_subdomain_counts_add_up(specs: Seq<SpecItem>, per_subdomain: Seq<(String, usize)>)
    requires
        is_tally_of(per_subdomain, subdomain_entries(specs)),
    ensures
        counts_total(entries_view(per_subdomain)) == paths_listed_total(specs),
{
    law_tally_keeps_sum(per_subdomain, subdomain_entries(specs));
    lemma_subdomain_entries_total(specs);
}

/// The number of paths of the first document of each text, all together.
pub open spec fn documents_paths_total(texts: Seq<String>) -> nat
    decreases texts.len(),
{
    if texts.len() == 0 {
        0
    } else {
        documents_paths_total(texts.drop_last()) + mapping_len(yaml_get(first_document(texts.last()@), "paths"@))
    }
}

proof fn lemma_audience_entries_total(texts: Seq<String>)
    ensures
        counts_total(audience_entries(texts)) == documents_paths_total(texts),
    decreases texts.len(),
{
    if texts.len() > 0 {
        assert(audience_entries(texts).drop_last() =~= audience_entries(texts.drop_last()));
        lemma_audience_entries_total(texts.drop_last());
    }
}

/// The numbers of endpoints per audience add up to the number of endpoints
/// of all the specs: each spec counts all its paths once, under its audience
/// or under "no audience".
pub proof fn law_audience_counts_add_up(texts: Seq<String>, per_audience: Seq<(String, usize)>)
    requires
        is_tally_of(per_audience, audience_entries(texts)),
    ensures
        counts_total(entries_view(per_audience)) == documents_paths_total(texts),
{
    law_tally_keeps_sum(per_audience, audience_entries(texts));
    lemma_audience_entries_total(texts);
}
} // verus!
