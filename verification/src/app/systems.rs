//! Systems and layers: the layers of each system, and the domains that the
//! specifications of one system and layer serve.
use vstd::prelude::*;
use vstd::utf8::*;
use vstd::std_specs::cmp::PartialEqSpecImpl;
use crate::app::dao::repo_layers::SystemAndLayer;
use crate::app::dao::catalog::spec::{SpecItem, extact_relative_path, relative_path_ok, relative_path_defined, relative_path_bytes, law_relative_path_is_the_rest};
use crate::app::dao::catalog::handlers::SpecHandler;
use crate::shared::settings::{Catalog, get_catalog_by_id, last_catalog_index, lemma_last_catalog_index_bounds};
use crate::app::dao::catalog::handlers::implem::opanapi::extension_lookup;
use crate::text::{str_eq, str_lt, bytes_lt, lowercase_text, to_lowercase, lemma_bytes_lt_transitive, lemma_bytes_lt_irreflexive, lemma_bytes_lt_total};

verus! {

/// A system and its layers; two systems are the same system when they have
/// the same name.
#[derive(Debug, Clone)]
pub struct System {
    pub name: String,
    pub layers: Vec<Layer>,
}

/// A layer of a system.
#[derive(Debug, Clone)]
pub struct Layer {
    pub name: String,
    pub description: String,
    pub config_image_link: String,
    pub config_color: String,
}

impl PartialEq for System {
    fn eq(&self, other: &System) -> (r: bool) {
        str_eq(self.name.as_str(), other.name.as_str())
    }
}

impl PartialEqSpecImpl for System {
    open spec fn obeys_eq_spec() -> bool {
        true
    }

    open spec fn eq_spec(&self, other: &System) -> bool {
        self.name@ == other.name@
    }
}

impl Eq for System {}

impl PartialEq for Layer {
    fn eq(&self, other: &Layer) -> (r: bool) {
        str_eq(self.name.as_str(), other.name.as_str()) && str_eq(self.description.as_str(), other.description.as_str())
            && str_eq(self.config_image_link.as_str(), other.config_image_link.as_str())
            && str_eq(self.config_color.as_str(), other.config_color.as_str())
    }
}

impl PartialEqSpecImpl for Layer {
    open spec fn obeys_eq_spec() -> bool {
        true
    }

    open spec fn eq_spec(&self, other: &Layer) -> bool {
        layer_view(*self) == layer_view(*other)
    }
}

impl Eq for Layer {}

impl PartialEq for Spec {
    fn eq(&self, other: &Spec) -> (r: bool) {
        str_eq(self.catalog_id.as_str(), other.catalog_id.as_str()) && str_eq(self.spec_path.as_str(), other.spec_path.as_str())
    }
}

impl PartialEqSpecImpl for Spec {
    open spec fn obeys_eq_spec() -> bool {
        true
    }

    open spec fn eq_spec(&self, other: &Spec) -> bool {
        spec_view(*self) == spec_view(*other)
    }
}

impl Eq for Spec {}

/// All the systems.
#[derive(Debug)]
pub struct Systems {
    pub systems: Vec<System>,
}

/// The domains served in one system and layer.
#[derive(Debug, Clone)]
pub struct DomainsPerSystemAndLayer {
    pub system: String,
    pub layer: String,
    pub domains: Vec<Domain>,
}

/// A domain and the specifications that serve it.
#[derive(Debug, Clone)]
pub struct Domain {
    pub name: String,
    pub specs: Vec<Spec>,
}

/// A specification: its catalog and its path in the catalog.
#[derive(Debug, Clone)]
pub struct Spec {
    pub catalog_id: String,
    pub spec_path: String,
}

/// The plain content of a layer.
pub open spec fn layer_view(l: Layer) -> (Seq<char>, Seq<char>, Seq<char>, Seq<char>) {
    (l.name@, l.description@, l.config_image_link@, l.config_color@)
}

/// The layer that a catalog item describes.
pub open spec fn item_layer(item: SystemAndLayer) -> (Seq<char>, Seq<char>, Seq<char>, Seq<char>) {
    (item.layer@, item.description@, item.config_image_link@, item.config_color@)
}

/// The layers that the catalog lists for `system`, in order.
pub open spec fn layers_of(flat: Seq<SystemAndLayer>, system: Seq<char>) -> Seq<(Seq<char>, Seq<char>, Seq<char>, Seq<char>)>
    decreases flat.len(),
{
    if flat.len() == 0 {
        seq![]
    } else if flat.last().system@ == system {
        layers_of(flat.drop_last(), system).push(item_layer(flat.last()))
    } else {
        layers_of(flat.drop_last(), system)
    }
}

/// Some item of the catalog belongs to `system`.
pub open spec fn system_listed(flat: Seq<SystemAndLayer>, system: Seq<char>) -> bool {
    exists|i: int| 0 <= i < flat.len() && (#[trigger] flat[i]).system@ == system
}

/// Some system of `systems` is named `name`.
pub open spec fn has_system(systems: Seq<System>, name: Seq<char>) -> bool {
    exists|i: int| 0 <= i < systems.len() && (#[trigger] systems[i]).name@ == name
}

/// The layers of `system`, in the order of the catalog.
fn layers_of_system(flat: &Vec<SystemAndLayer>, system: &str) -> (r: Vec<Layer>)
    ensures
        r@.map_values(|l: Layer| layer_view(l)) == layers_of(flat@, system@),
{
    let mut layers: Vec<Layer> = Vec::new();
    let mut k: usize = 0;
    while k < flat.len()
        invariant
            k <= flat@.len(),
            layers@.map_values(|l: Layer| layer_view(l)) == layers_of(flat@.subrange(0, k as int), system@),
        decreases flat@.len() - k,
    {
        let ghost next = flat@.subrange(0, k + 1);
        proof {
            assert(next.drop_last() =~= flat@.subrange(0, k as int));
            assert(next.last() == flat@[k as int]);
        }
        let item = &flat[k];
        if str_eq(item.system.as_str(), system) {
            let ghost before = layers@;
            let layer = Layer {
                name: item.layer.clone(),
                description: item.description.clone(),
                config_image_link: item.config_image_link.clone(),
                config_color: item.config_color.clone(),
            };
            layers.push(layer);
            proof {
                assert(layers@.map_values(|l: Layer| layer_view(l)) =~= before.map_values(|l: Layer| layer_view(l)).push(layer_view(layer)));
            }
        }
        k = k + 1;
    }
    proof {
        assert(flat@.subrange(0, flat@.len() as int) =~= flat@);
    }
    layers
}

/// Groups the catalog of systems and layers by system: each system once, in
/// order of first appearance, with its layers in the order of the catalog.
pub fn get_all_layers_per_systems(flat: &Vec<SystemAndLayer>) -> (r: Vec<System>)
    ensures
        forall|i: int, j: int| 0 <= i < j < r@.len() ==> (#[trigger] r@[i]).name@ != (#[trigger] r@[j]).name@,
        forall|name: Seq<char>| #[trigger] has_system(r@, name) <==> system_listed(flat@, name),
        forall|i: int| 0 <= i < r@.len() ==>
            (#[trigger] r@[i]).layers@.map_values(|l: Layer| layer_view(l)) == layers_of(flat@, r@[i].name@),
{
    let mut systems: Vec<System> = Vec::new();
    let mut k: usize = 0;
    while k < flat.len()
        invariant
            k <= flat@.len(),
            forall|i: int, j: int| 0 <= i < j < systems@.len() ==> (#[trigger] systems@[i]).name@ != (#[trigger] systems@[j]).name@,
            forall|name: Seq<char>| #[trigger] has_system(systems@, name) <==> system_listed(flat@.subrange(0, k as int), name),
            forall|i: int| 0 <= i < systems@.len() ==>
                (#[trigger] systems@[i]).layers@.map_values(|l: Layer| layer_view(l)) == layers_of(flat@, systems@[i].name@),
        decreases flat@.len() - k,
    {
        let ghost prefix = flat@.subrange(0, k as int);
        let ghost next = flat@.subrange(0, k + 1);
        let name = &flat[k].system;
        let mut j: usize = 0;
        let mut found = false;
        while j < systems.len() && !found
            invariant
                j <= systems@.len(),
                found ==> j < systems@.len() && systems@[j as int].name@ == name@,
                forall|w: int| 0 <= w < j ==> (#[trigger] systems@[w]).name@ != name@,
            decreases systems@.len() - j + if found { 0int } else { 1int },
        {
            if str_eq(systems[j].name.as_str(), name.as_str()) {
                found = true;
            } else {
                j = j + 1;
            }
        }
        let ghost old_systems = systems@;
        if !found {
            let layers = layers_of_system(flat, name.as_str());
            let system = System { name: name.clone(), layers };
            systems.push(system);
            proof {
                assert forall|i: int, w: int| 0 <= i < w < systems@.len() implies (#[trigger] systems@[i]).name@ != (#[trigger] systems@[w]).name@ by {
                    assert(systems@[i] == old_systems[i]);
                    if w < old_systems.len() {
                        assert(systems@[w] == old_systems[w]);
                    }
                }
                assert forall|i: int| 0 <= i < systems@.len() implies
                    (#[trigger] systems@[i]).layers@.map_values(|l: Layer| layer_view(l)) == layers_of(flat@, systems@[i].name@) by {
                    if i < old_systems.len() {
                        assert(systems@[i] == old_systems[i]);
                    }
                }
            }
        }
        proof {
            assert forall|n: Seq<char>| #[trigger] has_system(systems@, n) <==> system_listed(next, n) by {
                if has_system(systems@, n) {
                    let i = choose|i: int| 0 <= i < systems@.len() && (#[trigger] systems@[i]).name@ == n;
                    if i < old_systems.len() {
                        assert(systems@[i] == old_systems[i]);
                        assert(has_system(old_systems, n));
                        let w = choose|w: int| 0 <= w < prefix.len() && (#[trigger] prefix[w]).system@ == n;
                        assert(next[w] == prefix[w]);
                    } else {
                        assert(next[k as int] == flat@[k as int]);
                    }
                }
                if system_listed(next, n) {
                    let w = choose|w: int| 0 <= w < next.len() && (#[trigger] next[w]).system@ == n;
                    if w < k {
                        assert(prefix[w] == next[w]);
                        assert(system_listed(prefix, n));
                        assert(has_system(old_systems, n));
                        let i = choose|i: int| 0 <= i < old_systems.len() && (#[trigger] old_systems[i]).name@ == n;
                        assert(systems@[i] == old_systems[i]);
                    } else {
                        assert(next[w] == flat@[k as int]);
                        if found {
                            assert(systems@[j as int].name@ == n);
                        } else {
                            assert(systems@[old_systems.len() as int].name@ == n);
                        }
                    }
                }
            }
        }
        k = k + 1;
    }
    proof {
        assert(flat@.subrange(0, flat@.len() as int) =~= flat@);
    }
    systems
}


/// The path of a spec made relative to the directory of its catalog (the
/// last catalog with its id); the path itself when no catalog has that id.
pub open spec fn short_path_of(path: Seq<char>, catalogs: Seq<Catalog>, catalog_id: Seq<char>) -> Seq<char> {
    match last_catalog_index(catalogs, catalog_id) {
        Some(i) => decode_utf8(relative_path_bytes(path, catalogs[i].catalog_dir@)),
        None => path,
    }
}

/// The path can be made relative to its catalog's directory without
/// splitting a character.
pub open spec fn shortenable(path: Seq<char>, catalogs: Seq<Catalog>, catalog_id: Seq<char>) -> bool {
    match last_catalog_index(catalogs, catalog_id) {
        Some(i) => relative_path_defined(path, catalogs[i].catalog_dir@),
        None => true,
    }
}

/// Whether `shorten_spec_path` can make the path relative to its catalog.
pub fn check_shortenable(spec_path: &String, catalogs: &Vec<Catalog>, catalog_id: &str) -> (r: bool)
    ensures
        r == shortenable(spec_path@, catalogs@, catalog_id@),
{
    proof {
        lemma_last_catalog_index_bounds(catalogs@, catalog_id@);
    }
    match get_catalog_by_id(catalogs, catalog_id) {
        Some(catalog) => relative_path_ok(spec_path, &catalog.catalog_dir),
        None => true,
    }
}

/// The path of a spec relative to the directory of its catalog.
pub fn shorten_spec_path(spec_path: String, catalogs: &Vec<Catalog>, catalog_id: String) -> (r: String)
    requires
        shortenable(spec_path@, catalogs@, catalog_id@),
    ensures
        r@ == short_path_of(spec_path@, catalogs@, catalog_id@),
{
    proof {
        lemma_last_catalog_index_bounds(catalogs@, catalog_id@);
    }
    match get_catalog_by_id(catalogs, catalog_id.as_str()) {
        Some(catalog) => {
            let tmp = extact_relative_path(&spec_path, &catalog.catalog_dir);
            tmp.to_string()
        },
        None => spec_path,
    }
}

/// The spec is in `system` and `layer` (compared in lower case).
pub open spec fn in_system_and_layer(spec: SpecItem, system: Seq<char>, layer: Seq<char>) -> bool {
    &&& spec.handler.systems_list().contains(lowercase_text(system))
    &&& spec.handler.layer_text() == lowercase_text(layer)
}

/// The plain content of a spec reference: its path and its catalog.
pub open spec fn spec_view(s: Spec) -> (Seq<char>, Seq<char>) {
    (s.spec_path@, s.catalog_id@)
}

/// The domain of each spec of `system` and `layer`, with its short path and
/// catalog, in order.
pub open spec fn matched_rows(specs: Seq<SpecItem>, catalogs: Seq<Catalog>, system: Seq<char>, layer: Seq<char>)
    -> Seq<(Seq<char>, (Seq<char>, Seq<char>))>
    decreases specs.len(),
{
    if specs.len() == 0 {
        seq![]
    } else if in_system_and_layer(specs.last(), system, layer) {
        matched_rows(specs.drop_last(), catalogs, system, layer).push(
            (specs.last().handler.domain_text(), (short_path_of(specs.last().path@, catalogs, specs.last().catalog_id@), specs.last().catalog_id@)),
        )
    } else {
        matched_rows(specs.drop_last(), catalogs, system, layer)
    }
}

/// Every spec can give its systems, layer and domain, and the path of every
/// spec can be made relative to its catalog.
pub open spec fn specs_classifiable(specs: Seq<SpecItem>, catalogs: Seq<Catalog>) -> bool {
    forall|i: int| 0 <= i < specs.len() ==> {
        &&& (#[trigger] specs[i]).handler.pre_get_systems()
        &&& specs[i].handler.pre_get_layer()
        &&& specs[i].handler.pre_get_domain()
        &&& shortenable(specs[i].path@, catalogs, specs[i].catalog_id@)
    }
}

/// The spec is in `system` and `layer`.
fn spec_in_system_and_layer(spec: &SpecItem, system: &str, layer: &str) -> (r: bool)
    requires
        spec.handler.pre_get_systems(),
        spec.handler.pre_get_layer(),
    ensures
        r == in_system_and_layer(*spec, system@, layer@),
{
    let system_lc = to_lowercase(system);
    let layer_lc = to_lowercase(layer);
    let systems = spec.get_systems();
    let ghost sv = systems@.map_values(|s: String| s@);
    let mut j: usize = 0;
    let mut found = false;
    while j < systems.len() && !found
        invariant
            j <= systems@.len(),
            sv == systems@.map_values(|s: String| s@),
            found ==> j < systems@.len() && systems@[j as int]@ == system_lc@,
            forall|w: int| 0 <= w < j ==> (#[trigger] systems@[w])@ != system_lc@,
        decreases systems@.len() - j + if found { 0int } else { 1int },
    {
        if str_eq(systems[j].as_str(), system_lc.as_str()) {
            found = true;
        } else {
            j = j + 1;
        }
    }
    proof {
        if found {
            assert(sv[j as int] == system_lc@);
        }
        if sv.contains(system_lc@) {
            let w = choose|w: int| 0 <= w < sv.len() && sv[w] == system_lc@;
            assert(systems@[w]@ == system_lc@);
        }
    }
    if !found {
        return false;
    }
    let spec_layer = spec.get_layer();
    str_eq(spec_layer.as_str(), layer_lc.as_str())
}

/// The domain, short path and catalog of each spec of `system` and `layer`.
fn matching_rows(all_specs: &Vec<SpecItem>, catalogs: &Vec<Catalog>, system: &str, layer: &str) -> (r: Vec<(String, Spec)>)
    requires
        specs_classifiable(all_specs@, catalogs@),
    ensures
        rows_view(r@) == matched_rows(all_specs@, catalogs@, system@, layer@),
{
    let mut rows: Vec<(String, Spec)> = Vec::new();
    let mut k: usize = 0;
    while k < all_specs.len()
        invariant
            k <= all_specs@.len(),
            specs_classifiable(all_specs@, catalogs@),
            rows@.map_values(|row: (String, Spec)| (row.0@, spec_view(row.1))) == matched_rows(all_specs@.subrange(0, k as int), catalogs@, system@, layer@),
        decreases all_specs@.len() - k,
    {
        let ghost next = all_specs@.subrange(0, k + 1);
        proof {
            assert(next.drop_last() =~= all_specs@.subrange(0, k as int));
            assert(next.last() == all_specs@[k as int]);
        }
        let spec = &all_specs[k];
        if spec_in_system_and_layer(spec, system, layer) {
            let domain = spec.get_domain();
            let short = shorten_spec_path(spec.path.clone(), catalogs, spec.catalog_id.clone());
            let row = (domain, Spec { catalog_id: spec.catalog_id.clone(), spec_path: short });
            let ghost before = rows@;
            rows.push(row);
            proof {
                assert(rows@.map_values(|row: (String, Spec)| (row.0@, spec_view(row.1)))
                    =~= before.map_values(|row: (String, Spec)| (row.0@, spec_view(row.1))).push((row.0@, spec_view(row.1))));
            }
        }
        k = k + 1;
    }
    proof {
        assert(all_specs@.subrange(0, all_specs@.len() as int) =~= all_specs@);
    }
    rows
}

/// Some row is of domain `name`.
pub open spec fn row_domain(rows: Seq<(Seq<char>, (Seq<char>, Seq<char>))>, name: Seq<char>) -> bool {
    exists|w: int| 0 <= w < rows.len() && (#[trigger] rows[w]).0 == name
}

/// Some row is of domain `name` and refers to `entry`.
pub open spec fn row_of(rows: Seq<(Seq<char>, (Seq<char>, Seq<char>))>, name: Seq<char>, entry: (Seq<char>, Seq<char>)) -> bool {
    exists|w: int| 0 <= w < rows.len() && (#[trigger] rows[w]) == (name, entry)
}

/// Some domain of `domains` is named `name`.
pub open spec fn has_domain(domains: Seq<Domain>, name: Seq<char>) -> bool {
    exists|i: int| 0 <= i < domains.len() && (#[trigger] domains[i]).name@ == name
}

/// Some spec of `specs` refers to `entry`.
pub open spec fn has_spec(specs: Seq<Spec>, entry: (Seq<char>, Seq<char>)) -> bool {
    exists|i: int| 0 <= i < specs.len() && spec_view(#[trigger] specs[i]) == entry
}

/// No two specs of `specs` refer to the same path in the same catalog.
pub open spec fn specs_distinct(specs: Seq<Spec>) -> bool {
    forall|i: int, j: int| 0 <= i < j < specs.len() ==> spec_view(#[trigger] specs[i]) != spec_view(#[trigger] specs[j])
}

/// The plain content of rows.
pub open spec fn rows_view(rows: Seq<(String, Spec)>) -> Seq<(Seq<char>, (Seq<char>, Seq<char>))> {
    rows.map_values(|row: (String, Spec)| (row.0@, spec_view(row.1)))
}

/// The specs of the rows of domain `name`, each once, in order.
fn specs_of_domain(rows: &Vec<(String, Spec)>, name: &str) -> (r: Vec<Spec>)
    ensures
        specs_distinct(r@),
        forall|entry: (Seq<char>, Seq<char>)| #[trigger] has_spec(r@, entry) <==> row_of(rows_view(rows@), name@, entry),
{
    let ghost rv = rows_view(rows@);
    let mut specs: Vec<Spec> = Vec::new();
    let mut k: usize = 0;
    while k < rows.len()
        invariant
            k <= rows@.len(),
            rv == rows_view(rows@),
            specs_distinct(specs@),
            forall|entry: (Seq<char>, Seq<char>)| #[trigger] has_spec(specs@, entry) <==> row_of(rv.subrange(0, k as int), name@, entry),
        decreases rows@.len() - k,
    {
        let ghost prefix = rv.subrange(0, k as int);
        let ghost next = rv.subrange(0, k + 1);
        proof {
            assert(next[k as int] == rv[k as int]);
            assert(rv[k as int] == (rows@[k as int].0@, spec_view(rows@[k as int].1)));
        }
        let ghost old_specs = specs@;
        if str_eq(rows[k].0.as_str(), name) {
            let candidate = &rows[k].1;
            let mut j: usize = 0;
            let mut found = false;
            while j < specs.len() && !found
                invariant
                    j <= specs@.len(),
                    found ==> j < specs@.len() && spec_view(specs@[j as int]) == spec_view(*candidate),
                    forall|w: int| 0 <= w < j ==> spec_view(#[trigger] specs@[w]) != spec_view(*candidate),
                decreases specs@.len() - j + if found { 0int } else { 1int },
            {
                if str_eq(specs[j].spec_path.as_str(), candidate.spec_path.as_str())
                    && str_eq(specs[j].catalog_id.as_str(), candidate.catalog_id.as_str()) {
                    found = true;
                } else {
                    j = j + 1;
                }
            }
            if !found {
                specs.push(Spec { catalog_id: candidate.catalog_id.clone(), spec_path: candidate.spec_path.clone() });
                proof {
                    assert forall|i: int, w: int| 0 <= i < w < specs@.len() implies spec_view(#[trigger] specs@[i]) != spec_view(#[trigger] specs@[w]) by {
                        assert(specs@[i] == old_specs[i]);
                        if w < old_specs.len() {
                            assert(specs@[w] == old_specs[w]);
                        }
                    }
                }
            }
            proof {
                assert forall|entry: (Seq<char>, Seq<char>)| #[trigger] has_spec(specs@, entry) <==> row_of(next, name@, entry) by {
                    if has_spec(specs@, entry) {
                        let i = choose|i: int| 0 <= i < specs@.len() && spec_view(#[trigger] specs@[i]) == entry;
                        if i < old_specs.len() {
                            assert(specs@[i] == old_specs[i]);
                            assert(has_spec(old_specs, entry));
                            let w = choose|w: int| 0 <= w < prefix.len() && (#[trigger] prefix[w]) == (name@, entry);
                            assert(next[w] == prefix[w]);
                        } else {
                            assert(next[k as int] == (name@, entry));
                        }
                    }
                    if row_of(next, name@, entry) {
                        let w = choose|w: int| 0 <= w < next.len() && (#[trigger] next[w]) == (name@, entry);
                        if w < k {
                            assert(prefix[w] == next[w]);
                            assert(row_of(prefix, name@, entry));
                            assert(has_spec(old_specs, entry));
                            let i = choose|i: int| 0 <= i < old_specs.len() && spec_view(#[trigger] old_specs[i]) == entry;
                            assert(specs@[i] == old_specs[i]);
                        } else {
                            if found {
                                assert(spec_view(specs@[j as int]) == entry);
                            } else {
                                assert(spec_view(specs@[old_specs.len() as int]) == entry);
                            }
                        }
                    }
                }
            }
        } else {
            proof {
                assert forall|entry: (Seq<char>, Seq<char>)| #[trigger] has_spec(specs@, entry) <==> row_of(next, name@, entry) by {
                    if row_of(next, name@, entry) {
                        let w = choose|w: int| 0 <= w < next.len() && (#[trigger] next[w]) == (name@, entry);
                        assert(w != k);
                        assert(prefix[w] == next[w]);
                        assert(row_of(prefix, name@, entry));
                    }
                    if has_spec(specs@, entry) {
                        assert(row_of(prefix, name@, entry));
                        let w = choose|w: int| 0 <= w < prefix.len() && (#[trigger] prefix[w]) == (name@, entry);
                        assert(next[w] == prefix[w]);
                    }
                }
            }
        }
        k = k + 1;
    }
    proof {
        assert(rv.subrange(0, rows@.len() as int) =~= rv);
    }
    specs
}

/// Groups rows by domain: each domain once, in order of first appearance,
/// with the specs that its rows refer to, each once.
pub fn group_rows_by_domain(rows: &Vec<(String, Spec)>) -> (r: Vec<Domain>)
    ensures
        forall|i: int, j: int| 0 <= i < j < r@.len() ==> (#[trigger] r@[i]).name@ != (#[trigger] r@[j]).name@,
        forall|name: Seq<char>| #[trigger] has_domain(r@, name) <==> row_domain(rows_view(rows@), name),
        forall|i: int| 0 <= i < r@.len() ==> specs_distinct((#[trigger] r@[i]).specs@),
        forall|i: int, entry: (Seq<char>, Seq<char>)| 0 <= i < r@.len() ==>
            (#[trigger] has_spec(r@[i].specs@, entry) <==> row_of(rows_view(rows@), r@[i].name@, entry)),
{
    let ghost rv = rows_view(rows@);
    let mut domains: Vec<Domain> = Vec::new();
    let mut k: usize = 0;
    while k < rows.len()
        invariant
            k <= rows@.len(),
            rv == rows_view(rows@),
            forall|i: int, j: int| 0 <= i < j < domains@.len() ==> (#[trigger] domains@[i]).name@ != (#[trigger] domains@[j]).name@,
            forall|name: Seq<char>| #[trigger] has_domain(domains@, name) <==> row_domain(rv.subrange(0, k as int), name),
            forall|i: int| 0 <= i < domains@.len() ==> specs_distinct((#[trigger] domains@[i]).specs@),
            forall|i: int, entry: (Seq<char>, Seq<char>)| 0 <= i < domains@.len() ==>
                (#[trigger] has_spec(domains@[i].specs@, entry) <==> row_of(rv, domains@[i].name@, entry)),
        decreases rows@.len() - k,
    {
        let ghost prefix = rv.subrange(0, k as int);
        let ghost next = rv.subrange(0, k + 1);
        proof {
            assert(next[k as int] == rv[k as int]);
            assert(rv[k as int].0 == rows@[k as int].0@);
        }
        let name = &rows[k].0;
        let mut j: usize = 0;
        let mut found = false;
        while j < domains.len() && !found
            invariant
                j <= domains@.len(),
                found ==> j < domains@.len() && domains@[j as int].name@ == name@,
                forall|w: int| 0 <= w < j ==> (#[trigger] domains@[w]).name@ != name@,
            decreases domains@.len() - j + if found { 0int } else { 1int },
        {
            if str_eq(domains[j].name.as_str(), name.as_str()) {
                found = true;
            } else {
                j = j + 1;
            }
        }
        let ghost old_domains = domains@;
        if !found {
            let specs = specs_of_domain(rows, name.as_str());
            domains.push(Domain { name: name.clone(), specs });
            proof {
                assert forall|i: int, w: int| 0 <= i < w < domains@.len() implies (#[trigger] domains@[i]).name@ != (#[trigger] domains@[w]).name@ by {
                    assert(domains@[i] == old_domains[i]);
                    if w < old_domains.len() {
                        assert(domains@[w] == old_domains[w]);
                    }
                }
                assert forall|i: int| 0 <= i < domains@.len() implies specs_distinct((#[trigger] domains@[i]).specs@) by {
                    if i < old_domains.len() {
                        assert(domains@[i] == old_domains[i]);
                    }
                }
                assert forall|i: int, entry: (Seq<char>, Seq<char>)| 0 <= i < domains@.len() implies
                    (#[trigger] has_spec(domains@[i].specs@, entry) <==> row_of(rv, domains@[i].name@, entry)) by {
                    if i < old_domains.len() {
                        assert(domains@[i] == old_domains[i]);
                    }
                }
            }
        }
        proof {
            assert forall|n: Seq<char>| #[trigger] has_domain(domains@, n) <==> row_domain(next, n) by {
                if has_domain(domains@, n) {
                    let i = choose|i: int| 0 <= i < domains@.len() && (#[trigger] domains@[i]).name@ == n;
                    if i < old_domains.len() {
                        assert(domains@[i] == old_domains[i]);
                        assert(has_domain(old_domains, n));
                        let w = choose|w: int| 0 <= w < prefix.len() && (#[trigger] prefix[w]).0 == n;
                        assert(next[w] == prefix[w]);
                    } else {
                        assert(next[k as int].0 == n);
                    }
                }
                if row_domain(next, n) {
                    let w = choose|w: int| 0 <= w < next.len() && (#[trigger] next[w]).0 == n;
                    if w < k {
                        assert(prefix[w] == next[w]);
                        assert(row_domain(prefix, n));
                        assert(has_domain(old_domains, n));
                        let i = choose|i: int| 0 <= i < old_domains.len() && (#[trigger] old_domains[i]).name@ == n;
                        assert(domains@[i] == old_domains[i]);
                    } else {
                        if found {
                            assert(domains@[j as int].name@ == n);
                        } else {
                            assert(domains@[old_domains.len() as int].name@ == n);
                        }
                    }
                }
            }
        }
        k = k + 1;
    }
    proof {
        assert(rv.subrange(0, rows@.len() as int) =~= rv);
    }
    domains
}

/// The specs of `system` and `layer`, grouped by domain: each domain once,
/// with the specs (short path and catalog) that serve it, each once. The
/// system and the layer are compared in lower case.
pub fn get_domains_per_system_and_layer(all_specs: &Vec<SpecItem>, catalogs: &Vec<Catalog>, system: &String, layer: &String) -> (r: Vec<Domain>)
    requires
        specs_classifiable(all_specs@, catalogs@),
    ensures
        forall|i: int, j: int| 0 <= i < j < r@.len() ==> (#[trigger] r@[i]).name@ != (#[trigger] r@[j]).name@,
        forall|name: Seq<char>| #[trigger] has_domain(r@, name)
            <==> row_domain(matched_rows(all_specs@, catalogs@, system@, layer@), name),
        forall|i: int| 0 <= i < r@.len() ==> specs_distinct((#[trigger] r@[i]).specs@),
        forall|i: int, entry: (Seq<char>, Seq<char>)| 0 <= i < r@.len() ==>
            (#[trigger] has_spec(r@[i].specs@, entry) <==> row_of(matched_rows(all_specs@, catalogs@, system@, layer@), r@[i].name@, entry)),
{
    let rows = matching_rows(all_specs, catalogs, system.as_str(), layer.as_str());
    group_rows_by_domain(&rows)
}

/// The UTF-8 bytes of a domain's name, by which domains are sorted.
pub open spec fn name_bytes(d: Domain) -> Seq<u8> {
    encode_utf8(d.name@)
}

/// The domains have distinct names.
pub open spec fn names_distinct(domains: Seq<Domain>) -> bool {
    forall|i: int, j: int| 0 <= i < j < domains.len() ==> (#[trigger] domains[i]).name@ != (#[trigger] domains[j]).name@
}

/// Sorts domains with distinct names by name (byte-wise, as `String::cmp`
/// orders them).
pub fn sort_domains_by_name(domains: Vec<Domain>) -> (r: Vec<Domain>)
    requires
        names_distinct(domains@),
    ensures
        r@.to_multiset() == domains@.to_multiset(),
        forall|i: int, j: int| 0 <= i < j < r@.len() ==> bytes_lt(name_bytes(#[trigger] r@[i]), name_bytes(#[trigger] r@[j])),
{
    broadcast use vstd::seq_lib::group_to_multiset_ensures;
    let ghost input = domains@;
    let mut remaining = domains;
    let mut sorted: Vec<Domain> = Vec::new();
    while remaining.len() > 0
        invariant
            sorted@.to_multiset().add(remaining@.to_multiset()) =~= input.to_multiset(),
            names_distinct(remaining@),
            forall|i: int, k: int| 0 <= i < sorted@.len() && 0 <= k < remaining@.len() ==>
                bytes_lt(name_bytes(#[trigger] sorted@[i]), name_bytes(#[trigger] remaining@[k])),
            forall|i: int, j: int| 0 <= i < j < sorted@.len() ==> bytes_lt(name_bytes(#[trigger] sorted@[i]), name_bytes(#[trigger] sorted@[j])),
        decreases remaining@.len(),
    {
        let mut m: usize = 0;
        let mut j: usize = 1;
        proof {
            lemma_bytes_lt_irreflexive(name_bytes(remaining@[0]));
        }
        while j < remaining.len()
            invariant
                0 <= m < j <= remaining@.len(),
                forall|w: int| 0 <= w < j ==> !bytes_lt(name_bytes(#[trigger] remaining@[w]), name_bytes(remaining@[m as int])),
            decreases remaining@.len() - j,
        {
            if str_lt(remaining[j].name.as_str(), remaining[m].name.as_str()) {
                proof {
                    assert forall|w: int| 0 <= w < j + 1 implies !bytes_lt(name_bytes(#[trigger] remaining@[w]), name_bytes(remaining@[j as int])) by {
                        if w < j && bytes_lt(name_bytes(remaining@[w]), name_bytes(remaining@[j as int])) {
                            lemma_bytes_lt_transitive(name_bytes(remaining@[w]), name_bytes(remaining@[j as int]), name_bytes(remaining@[m as int]));
                        }
                        if w == j {
                            lemma_bytes_lt_irreflexive(name_bytes(remaining@[j as int]));
                        }
                    }
                }
                m = j;
            }
            j = j + 1;
        }
        let ghost old_remaining = remaining@;
        let ghost old_sorted = sorted@;
        proof {
            assert forall|k: int| 0 <= k < old_remaining.len() && k != m implies
                bytes_lt(name_bytes(old_remaining[m as int]), name_bytes(#[trigger] old_remaining[k])) by {
                assert(old_remaining[k].name@ != old_remaining[m as int].name@);
                if name_bytes(old_remaining[k]) == name_bytes(old_remaining[m as int]) {
                    encode_utf8_decode_utf8(old_remaining[k].name@);
                    encode_utf8_decode_utf8(old_remaining[m as int].name@);
                }
                lemma_bytes_lt_total(name_bytes(old_remaining[k]), name_bytes(old_remaining[m as int]));
            }
        }
        let d = remaining.remove(m);
        sorted.push(d);
        proof {
            old_remaining.to_multiset_ensures();
            old_sorted.to_multiset_ensures();
            assert(d == old_remaining[m as int]);
            assert(remaining@ == old_remaining.remove(m as int));
            assert(old_remaining.remove(m as int).to_multiset() =~= old_remaining.to_multiset().remove(old_remaining[m as int]));
            assert(old_remaining.to_multiset().count(d) > 0);
            assert(sorted@.to_multiset().add(remaining@.to_multiset()) =~= old_sorted.to_multiset().add(old_remaining.to_multiset()));
            assert forall|i: int, w: int| 0 <= i < w < remaining@.len() implies
                (#[trigger] remaining@[i]).name@ != (#[trigger] remaining@[w]).name@ by {
                let oi = if i < m { i } else { i + 1 };
                let ow = if w < m { w } else { w + 1 };
                assert(remaining@[i] == old_remaining[oi]);
                assert(remaining@[w] == old_remaining[ow]);
            }
            assert forall|i: int, k: int| 0 <= i < sorted@.len() && 0 <= k < remaining@.len() implies
                bytes_lt(name_bytes(#[trigger] sorted@[i]), name_bytes(#[trigger] remaining@[k])) by {
                let ok = if k < m { k } else { k + 1 };
                assert(remaining@[k] == old_remaining[ok]);
                if i < old_sorted.len() {
                    assert(sorted@[i] == old_sorted[i]);
                }
            }
            assert forall|i: int, w: int| 0 <= i < w < sorted@.len() implies
                bytes_lt(name_bytes(#[trigger] sorted@[i]), name_bytes(#[trigger] sorted@[w])) by {
                assert(sorted@[i] == old_sorted[i]);
                if w < old_sorted.len() {
                    assert(sorted@[w] == old_sorted[w]);
                } else {
                    assert(old_remaining[m as int] == d);
                }
            }
        }
    }
    proof {
        assert(remaining@.to_multiset() =~= vstd::multiset::Multiset::empty());
    }
    sorted
}

/// The domains served in `system` and `layer`, sorted by name.
pub fn get_all_domains_per_system_and_layer(all_specs: &Vec<SpecItem>, catalogs: &Vec<Catalog>, system: String, layer: String)
    -> (r: DomainsPerSystemAndLayer)
    requires
        specs_classifiable(all_specs@, catalogs@),
    ensures
        r.system@ == system@,
        r.layer@ == layer@,
        forall|i: int, j: int| 0 <= i < j < r.domains@.len() ==>
            bytes_lt(name_bytes(#[trigger] r.domains@[i]), name_bytes(#[trigger] r.domains@[j])),
        forall|name: Seq<char>| #[trigger] has_domain(r.domains@, name)
            <==> row_domain(matched_rows(all_specs@, catalogs@, system@, layer@), name),
        forall|i: int| 0 <= i < r.domains@.len() ==> specs_distinct((#[trigger] r.domains@[i]).specs@),
        forall|i: int, entry: (Seq<char>, Seq<char>)| 0 <= i < r.domains@.len() ==>
            (#[trigger] has_spec(r.domains@[i].specs@, entry)
                <==> row_of(matched_rows(all_specs@, catalogs@, system@, layer@), r.domains@[i].name@, entry)),
{
    broadcast use vstd::seq_lib::group_to_multiset_ensures;
    let domains = get_domains_per_system_and_layer(all_specs, catalogs, &system, &layer);
    let ghost rows = matched_rows(all_specs@, catalogs@, system@, layer@);
    let sorted = sort_domains_by_name(domains);
    proof {
        assert forall|i: int| 0 <= i < sorted@.len() implies domains@.contains(#[trigger] sorted@[i]) by {
            assert(sorted@.to_multiset().count(sorted@[i]) > 0);
        }
        assert forall|k: int| 0 <= k < domains@.len() implies sorted@.contains(#[trigger] domains@[k]) by {
            assert(domains@.to_multiset().count(domains@[k]) > 0);
        }
        assert forall|name: Seq<char>| #[trigger] has_domain(sorted@, name) <==> row_domain(rows, name) by {
            if has_domain(sorted@, name) {
                let i = choose|i: int| 0 <= i < sorted@.len() && (#[trigger] sorted@[i]).name@ == name;
                assert(domains@.contains(sorted@[i]));
                let k = choose|k: int| 0 <= k < domains@.len() && domains@[k] == sorted@[i];
                assert(has_domain(domains@, name));
            }
            if row_domain(rows, name) {
                assert(has_domain(domains@, name));
                let k = choose|k: int| 0 <= k < domains@.len() && (#[trigger] domains@[k]).name@ == name;
                assert(sorted@.contains(domains@[k]));
                let i = choose|i: int| 0 <= i < sorted@.len() && sorted@[i] == domains@[k];
                assert(sorted@[i].name@ == name);
            }
        }
        assert forall|i: int| 0 <= i < sorted@.len() implies specs_distinct((#[trigger] sorted@[i]).specs@) by {
            assert(domains@.contains(sorted@[i]));
            let k = choose|k: int| 0 <= k < domains@.len() && domains@[k] == sorted@[i];
            assert(specs_distinct(domains@[k].specs@));
        }
        assert forall|i: int, entry: (Seq<char>, Seq<char>)| 0 <= i < sorted@.len() implies
            (#[trigger] has_spec(sorted@[i].specs@, entry) <==> row_of(rows, sorted@[i].name@, entry)) by {
            assert(domains@.contains(sorted@[i]));
            let k = choose|k: int| 0 <= k < domains@.len() && domains@[k] == sorted@[i];
            assert(has_spec(domains@[k].specs@, entry) <==> row_of(rows, domains@[k].name@, entry));
        }
    }
    DomainsPerSystemAndLayer { system, layer, domains: sorted }
}


/// For a spec inside the directory of its catalog, the short path is what
/// follows that directory.
pub proof fn law_short_path_in_catalog(spec_path: Seq<char>, catalogs: Seq<Catalog>, catalog_id: Seq<char>, i: int, rest: Seq<char>)
    requires
        last_catalog_index(catalogs, catalog_id) == Some(i),
        spec_path == catalogs[i].catalog_dir@ + rest,
    ensures
        shortenable(spec_path, catalogs, catalog_id),
        short_path_of(spec_path, catalogs, catalog_id) == rest,
{
    law_relative_path_is_the_rest(spec_path, catalogs[i].catalog_dir@, rest);
}

/// A spec is found in its layer whatever the case in which the layer is
/// asked or written: an OpenAPI spec of `system` whose `x-layer` reads `t`
/// is in `system` and `layer` for every `layer` with the same lower case.
pub proof fn law_layer_found_in_any_case(spec: SpecItem, system: Seq<char>, layer: Seq<char>, t: Seq<char>)
    requires
        spec.handler is OpenAPIv3,
        spec.handler.systems_list().contains(lowercase_text(system)),
        extension_lookup(spec.handler->OpenAPIv3_0.spec.extensions@, "x-layer"@) matches Some(e) && e.text matches Some(x)
            && x@ == t,
        lowercase_text(t) == lowercase_text(layer),
    ensures
        in_system_and_layer(spec, system, layer),
{
}

} // verus!
