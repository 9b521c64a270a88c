//! Business domains: the domains that the specifications serve, their check
//! against the declared domains, and the tree of subdomains.
use vstd::prelude::*;
use vstd::string::*;
use vstd::utf8::*;
use vstd::std_specs::cmp::PartialEqSpecImpl;
use crate::app::dao::catalog::spec::{SpecItem, relative_path_defined, relative_path_bytes};
use crate::app::dao::catalog::{get_endpoints_num_per_subdomain, subdomain_entries, specs_domains_readable};
use crate::app::dao::catalog::handlers::SpecHandler;
use crate::dao::repo_domains::DomainItem;
use crate::tally::{keyed_total, has_key, is_tally_of, totals_fit, entries_view, tally_get};
use crate::text::{split_text, split_by, chars_contain, contains, decimal_text, u64_to_decimal, str_eq, starts_with, starts_with_text, lemma_split_text_nonempty};

verus! {

/// A declared domain and whether no specification serves it; `id` holds the
/// 128 bits of its UUID.
#[derive(Debug)]
pub struct Domain {
    pub name: String,
    pub id: u128,
    pub description: String,
    pub owner: String,
    pub is_empty: bool,
}

/// The declared domains.
#[derive(Debug)]
pub struct Domains {
    pub is_read_only: bool,
    pub domains: Vec<Domain>,
}

/// A node of the tree of subdomains.
#[derive(Debug, Clone)]
pub struct Node {
    pub level: usize,
    pub name: String,
    pub parent: String,
    pub value: i32,
}

impl PartialEq for Node {
    fn eq(&self, other: &Node) -> (r: bool) {
        str_eq(self.name.as_str(), other.name.as_str()) && str_eq(self.parent.as_str(), other.parent.as_str())
            && self.level == other.level
    }
}

impl PartialEqSpecImpl for Node {
    open spec fn obeys_eq_spec() -> bool {
        true
    }

    open spec fn eq_spec(&self, other: &Node) -> bool {
        self.name@ == other.name@ && self.parent@ == other.parent@ && self.level == other.level
    }
}

impl Eq for Node {}

/// A specification whose domain is not among the declared domains.
#[derive(Debug)]
pub struct DomainError {
    pub spec_domain: String,
    pub spec_catalog_id: String,
    pub spec_path: String,
    pub resources: usize,
}

/// The specifications whose domain is not declared.
#[derive(Debug)]
pub struct DomainErrors {
    pub errors: Vec<DomainError>,
}

/// Two nodes are the same node when they have the same name, parent and level.
pub open spec fn same_node(a: Node, b: Node) -> bool {
    a.name@ == b.name@ && a.parent@ == b.parent@ && a.level == b.level
}

/// The domain of each spec.
pub open spec fn spec_domains(specs: Seq<SpecItem>) -> Seq<Seq<char>> {
    specs.map_values(|s: SpecItem| s.handler.domain_text())
}

/// Every spec can give its domain.
pub open spec fn domains_readable(specs: Seq<SpecItem>) -> bool {
    forall|i: int| 0 <= i < specs.len() ==> (#[trigger] specs[i]).handler.pre_get_domain()
}

/// The domains that the specifications serve, each once, in order of first
/// appearance.
pub fn get_all_domains_for_all_catalogs(all_specs: &Vec<SpecItem>) -> (r: Vec<String>)
    requires
        domains_readable(all_specs@),
    ensures
        forall|i: int, j: int| 0 <= i < j < r@.len() ==> (#[trigger] r@[i])@ != (#[trigger] r@[j])@,
        forall|d: Seq<char>| (exists|i: int| 0 <= i < r@.len() && (#[trigger] r@[i])@ == d)
            <==> spec_domains(all_specs@).contains(d),
{
    let mut domains: Vec<String> = Vec::new();
    let mut k: usize = 0;
    while k < all_specs.len()
        invariant
            k <= all_specs@.len(),
            domains_readable(all_specs@),
            forall|i: int, j: int| 0 <= i < j < domains@.len() ==> (#[trigger] domains@[i])@ != (#[trigger] domains@[j])@,
            forall|d: Seq<char>| (exists|i: int| 0 <= i < domains@.len() && (#[trigger] domains@[i])@ == d)
                <==> spec_domains(all_specs@).subrange(0, k as int).contains(d),
        decreases all_specs@.len() - k,
    {
        let d = all_specs[k].get_domain();
        let ghost prev = spec_domains(all_specs@).subrange(0, k as int);
        let ghost next = spec_domains(all_specs@).subrange(0, k + 1);
        proof {
            assert(next =~= prev.push(d@));
        }
        let mut j: usize = 0;
        let mut found = false;
        while j < domains.len() && !found
            invariant
                j <= domains@.len(),
                found ==> j < domains@.len() && domains@[j as int]@ == d@,
                forall|w: int| 0 <= w < j ==> (#[trigger] domains@[w])@ != d@,
            decreases domains@.len() - j + if found { 0int } else { 1int },
        {
            if str_eq(domains[j].as_str(), d.as_str()) {
                found = true;
            } else {
                j = j + 1;
            }
        }
        let ghost old_domains = domains@;
        if !found {
            domains.push(d);
            proof {
                assert forall|i: int, w: int| 0 <= i < w < domains@.len() implies (#[trigger] domains@[i])@ != (#[trigger] domains@[w])@ by {
                    if w < old_domains.len() {
                        assert(domains@[i] == old_domains[i]);
                        assert(domains@[w] == old_domains[w]);
                    } else {
                        assert(domains@[i] == old_domains[i]);
                    }
                }
            }
        }
        proof {
            assert forall|e: Seq<char>| (exists|i: int| 0 <= i < domains@.len() && (#[trigger] domains@[i])@ == e)
                <==> next.contains(e) by {
                if exists|i: int| 0 <= i < domains@.len() && (#[trigger] domains@[i])@ == e {
                    let i = choose|i: int| 0 <= i < domains@.len() && (#[trigger] domains@[i])@ == e;
                    if i < old_domains.len() {
                        assert(old_domains[i] == domains@[i]);
                        assert(prev.contains(e));
                        let w = choose|w: int| 0 <= w < prev.len() && prev[w] == e;
                        assert(next[w] == e);
                    } else {
                        assert(next[prev.len() as int] == e);
                    }
                }
                if next.contains(e) {
                    let w = choose|w: int| 0 <= w < next.len() && next[w] == e;
                    if w < prev.len() {
                        assert(prev[w] == e);
                        assert(prev.contains(e));
                        let i = choose|i: int| 0 <= i < old_domains.len() && (#[trigger] old_domains[i])@ == e;
                        assert(domains@[i] == old_domains[i]);
                    } else {
                        if found {
                            assert(domains@[j as int]@ == e);
                        } else {
                            assert(domains@[old_domains.len() as int]@ == e);
                        }
                    }
                }
            }
        }
        k = k + 1;
    }
    proof {
        assert(spec_domains(all_specs@).subrange(0, all_specs@.len() as int) =~= spec_domains(all_specs@));
    }
    domains
}


/// Some declared domain name occurs in `domain`.
pub open spec fn domain_declared(domain: Seq<char>, names: Seq<String>) -> bool {
    exists|j: int| 0 <= j < names.len() && chars_contain(domain, (#[trigger] names[j])@)
}

/// The specifications whose domain holds none of the declared names, in order.
pub open spec fn undeclared_specs(specs: Seq<SpecItem>, names: Seq<String>) -> Seq<SpecItem>
    decreases specs.len(),
{
    if specs.len() == 0 {
        seq![]
    } else if !domain_declared(specs.last().handler.domain_text(), names) {
        undeclared_specs(specs.drop_last(), names).push(specs.last())
    } else {
        undeclared_specs(specs.drop_last(), names)
    }
}

/// `e` reports `spec`, among `specs`: its domain, catalog, path relative to
/// the catalog directory, and the number of paths of all the specs of that
/// domain.
pub open spec fn error_of_spec(e: DomainError, spec: SpecItem, specs: Seq<SpecItem>) -> bool {
    &&& e.spec_domain@ == spec.handler.domain_text()
    &&& e.spec_catalog_id@ == spec.catalog_id@
    &&& e.spec_path@ == decode_utf8(relative_path_bytes(spec.path@, spec.catalog_dir@))
    &&& e.resources == keyed_total(subdomain_entries(specs), spec.handler.domain_text())
}

/// Each spec's path can be made relative to its catalog directory.
pub open spec fn short_paths_defined(specs: Seq<SpecItem>) -> bool {
    forall|i: int| 0 <= i < specs.len() ==> relative_path_defined((#[trigger] specs[i]).path@, specs[i].catalog_dir@)
}

/// The specifications whose domain holds none of the declared domain names.
pub fn get_domains_errors(all_specs: &Vec<SpecItem>, all_domains: &Vec<String>) -> (r: DomainErrors)
    requires
        specs_domains_readable(all_specs@),
        totals_fit(subdomain_entries(all_specs@)),
        short_paths_defined(all_specs@),
    ensures
        r.errors@.len() == undeclared_specs(all_specs@, all_domains@).len(),
        forall|i: int| 0 <= i < r.errors@.len() ==>
            error_of_spec(#[trigger] r.errors@[i], undeclared_specs(all_specs@, all_domains@)[i], all_specs@),
{
    let data = get_endpoints_num_per_subdomain(all_specs);
    let mut errors: Vec<DomainError> = Vec::new();
    let mut k: usize = 0;
    while k < all_specs.len()
        invariant
            k <= all_specs@.len(),
            specs_domains_readable(all_specs@),
            short_paths_defined(all_specs@),
            is_tally_of(data@, subdomain_entries(all_specs@)),
            errors@.len() == undeclared_specs(all_specs@.subrange(0, k as int), all_domains@).len(),
            forall|i: int| 0 <= i < errors@.len() ==>
                error_of_spec(#[trigger] errors@[i], undeclared_specs(all_specs@.subrange(0, k as int), all_domains@)[i], all_specs@),
        decreases all_specs@.len() - k,
    {
        let ghost prefix = all_specs@.subrange(0, k as int);
        let ghost next = all_specs@.subrange(0, k + 1);
        proof {
            assert(next.drop_last() =~= prefix);
            assert(next.last() == all_specs@[k as int]);
        }
        let spec = &all_specs[k];
        let spec_domain = spec.get_domain();
        let mut j: usize = 0;
        let mut is_contained = false;
        while j < all_domains.len() && !is_contained
            invariant
                j <= all_domains@.len(),
                is_contained ==> j < all_domains@.len() && chars_contain(spec_domain@, all_domains@[j as int]@),
                forall|w: int| 0 <= w < j ==> !chars_contain(spec_domain@, (#[trigger] all_domains@[w])@),
            decreases all_domains@.len() - j + if is_contained { 0int } else { 1int },
        {
            let h = spec_domain.as_str();
            let n = all_domains[j].as_str();
            let hit = contains(h, n);
            proof {
                assert(h.spec_bytes() == encode_utf8(spec_domain@));
                assert(n.spec_bytes() == encode_utf8(all_domains@[j as int]@));
                assert(hit == chars_contain(spec_domain@, all_domains@[j as int]@));
            }
            if hit {
                is_contained = true;
            } else {
                j = j + 1;
            }
        }
        proof {
            assert(is_contained == domain_declared(spec_domain@, all_domains@));
        }
        if !is_contained {
            proof {
                assert(subdomain_entries(all_specs@)[k as int].0 == spec_domain@);
                assert(has_key(subdomain_entries(all_specs@), spec_domain@));
            }
            let resources = match tally_get(&data, spec_domain.as_str()) {
                Some(v) => v,
                None => {
                    proof {
                        assert(false);
                    }
                    0
                },
            };
            let short_path = spec.get_spec_short_path();
            let error = DomainError {
                spec_domain,
                spec_catalog_id: spec.catalog_id.clone(),
                spec_path: short_path.to_string(),
                resources,
            };
            errors.push(error);
        }
        k = k + 1;
    }
    proof {
        assert(all_specs@.subrange(0, all_specs@.len() as int) =~= all_specs@);
    }
    DomainErrors { errors }
}

/// The UTF-8 bytes of `"/v"`.
pub open spec fn version_prefix() -> Seq<u8> {
    seq![47u8, 118u8]
}

proof fn lemma_version_prefix()
    ensures
        "/v".spec_bytes() == version_prefix(),
{
    broadcast use vstd::string::is_ascii_spec_bytes;
    reveal_strlit("/v");
    assert(vstd::string::is_ascii("/v"));
    assert("/v".spec_bytes() =~= version_prefix());
}

/// A served domain key that follows the `/vN` convention can be cut after
/// its third byte without splitting a character.
pub open spec fn key_cleanable(key: Seq<char>) -> bool {
    encode_utf8(key).subrange(0, 2) == version_prefix() && encode_utf8(key).len() >= 2
        ==> encode_utf8(key).len() >= 3 && is_char_boundary(encode_utf8(key), 3)
}

/// Whether a served domain key can be cleaned of its version.
pub fn check_key_cleanable(key: &str) -> (r: bool)
    ensures
        r == key_cleanable(key@),
{
    proof {
        lemma_version_prefix();
    }
    if starts_with(key, "/v") {
        3 <= key.as_bytes().len() && key.is_char_boundary(3)
    } else {
        proof {
            if encode_utf8(key@).len() >= 2 {
                assert(encode_utf8(key@).subrange(0, 2) != version_prefix());
            }
        }
        true
    }
}

/// `key` follows the `/vN` convention and, without its first three bytes,
/// is `name`.
pub open spec fn served_as(key: Seq<char>, name: Seq<char>) -> bool {
    &&& encode_utf8(key).len() >= 3
    &&& encode_utf8(key).subrange(0, 2) == version_prefix()
    &&& name == decode_utf8(encode_utf8(key).subrange(3, encode_utf8(key).len() as int))
}

/// Some served domain among the first `n`, once cleaned of its version, is `name`.
pub open spec fn served_among(name: Seq<char>, served: Seq<(String, usize)>, n: int) -> bool {
    exists|j: int| 0 <= j < n && served_as((#[trigger] served[j]).0@, name)
}

/// Some served domain, once cleaned of its version, is `name`.
pub open spec fn domain_served(name: Seq<char>, served: Seq<(String, usize)>) -> bool {
    served_among(name, served, served.len() as int)
}

/// Some text of `v` is `name`.
pub open spec fn listed(v: Seq<String>, name: Seq<char>) -> bool {
    exists|i: int| 0 <= i < v.len() && (#[trigger] v[i])@ == name
}

/// `d` lists the declared domain `item`, and tells whether no spec serves it.
pub open spec fn domain_of_item(d: Domain, item: DomainItem, served: Seq<(String, usize)>) -> bool {
    &&& d.name@ == item.name@
    &&& d.id == item.id
    &&& d.description@ == item.description@
    &&& d.owner@ == item.owner@
    &&& d.is_empty == !domain_served(item.name@, served)
}

/// The served domains cleaned of their version: those that start with `/v`,
/// without their first three bytes.
fn cleaned_domains(served: &Vec<(String, usize)>) -> (r: Vec<String>)
    requires
        forall|j: int| 0 <= j < served@.len() ==> key_cleanable((#[trigger] served@[j]).0@),
    ensures
        forall|name: Seq<char>| #[trigger] listed(r@, name) <==> domain_served(name, served@),
{
    let mut cleaned: Vec<String> = Vec::new();
    let mut j: usize = 0;
    while j < served.len()
        invariant
            j <= served@.len(),
            forall|w: int| 0 <= w < served@.len() ==> key_cleanable((#[trigger] served@[w]).0@),
            forall|name: Seq<char>| #[trigger] listed(cleaned@, name) <==> served_among(name, served@, j as int),
        decreases served@.len() - j,
    {
        let key = served[j].0.as_str();
        proof {
            lemma_version_prefix();
        }
        let ghost old_cleaned = cleaned@;
        if starts_with(key, "/v") {
            proof {
                assert(key.spec_bytes().subrange(0, 2) == version_prefix());
            }
            let (_, rest) = key.split_at(3);
            proof {
                encode_utf8_decode_utf8(rest@);
            }
            cleaned.push(rest.to_string());
            proof {
                assert forall|name: Seq<char>| #[trigger] listed(cleaned@, name) <==> served_among(name, served@, j + 1) by {
                    if listed(cleaned@, name) {
                        let i = choose|i: int| 0 <= i < cleaned@.len() && (#[trigger] cleaned@[i])@ == name;
                        if i < old_cleaned.len() {
                            assert(old_cleaned[i] == cleaned@[i]);
                            assert(listed(old_cleaned, name));
                        } else {
                            assert(served_as(served@[j as int].0@, name));
                        }
                    }
                    if served_among(name, served@, j + 1) {
                        let w = choose|w: int| 0 <= w < j + 1 && served_as((#[trigger] served@[w]).0@, name);
                        if w < j {
                            assert(served_among(name, served@, j as int));
                            assert(listed(old_cleaned, name));
                            let i = choose|i: int| 0 <= i < old_cleaned.len() && (#[trigger] old_cleaned[i])@ == name;
                            assert(cleaned@[i] == old_cleaned[i]);
                        } else {
                            assert(cleaned@[old_cleaned.len() as int]@ == name);
                        }
                    }
                }
            }
        } else {
            proof {
                assert forall|name: Seq<char>| !served_as(served@[j as int].0@, name) by {}
                assert forall|name: Seq<char>| #[trigger] served_among(name, served@, j + 1)
                    ==> served_among(name, served@, j as int) by {
                    if served_among(name, served@, j + 1) {
                        let w = choose|w: int| 0 <= w < j + 1 && served_as((#[trigger] served@[w]).0@, name);
                        assert(w != j);
                    }
                }
            }
        }
        j = j + 1;
    }
    cleaned
}

/// The declared domains, last declared first, each with whether no
/// specification serves it. `served` are the domains that the specifications
/// serve with their number of paths; a domain `/vN/x` serves the declared
/// domain `/x`.
pub fn get_domains(all_domains: Vec<DomainItem>, served: &Vec<(String, usize)>, is_read_only: bool) -> (r: Domains)
    requires
        forall|j: int| 0 <= j < served@.len() ==> key_cleanable((#[trigger] served@[j]).0@),
    ensures
        r.is_read_only == is_read_only,
        r.domains@.len() == all_domains@.len(),
        forall|i: int| 0 <= i < r.domains@.len() ==>
            domain_of_item(#[trigger] r.domains@[i], all_domains@[all_domains@.len() - 1 - i], served@),
{
    let cleaned = cleaned_domains(served);
    let mut all_domains = all_domains;
    let ghost items = all_domains@;
    let mut domains: Vec<Domain> = Vec::new();
    while all_domains.len() > 0
        invariant
            all_domains@ == items.subrange(0, items.len() - domains@.len()),
            domains@.len() <= items.len(),
            forall|name: Seq<char>| #[trigger] listed(cleaned@, name) <==> domain_served(name, served@),
            forall|i: int| 0 <= i < domains@.len() ==>
                domain_of_item(#[trigger] domains@[i], items[items.len() - 1 - i], served@),
        decreases all_domains@.len(),
    {
        let domain = all_domains.pop().unwrap();
        let mut j: usize = 0;
        let mut found = false;
        while j < cleaned.len() && !found
            invariant
                j <= cleaned@.len(),
                found ==> j < cleaned@.len() && cleaned@[j as int]@ == domain.name@,
                forall|w: int| 0 <= w < j ==> (#[trigger] cleaned@[w])@ != domain.name@,
            decreases cleaned@.len() - j + if found { 0int } else { 1int },
        {
            if str_eq(cleaned[j].as_str(), domain.name.as_str()) {
                found = true;
            } else {
                j = j + 1;
            }
        }
        let ghost idx = items.len() - 1 - domains@.len();
        proof {
            assert(domain == items[idx]);
            if found {
                assert(listed(cleaned@, domain.name@));
            }
            if domain_served(domain.name@, served@) {
                assert(listed(cleaned@, domain.name@));
                let i = choose|i: int| 0 <= i < cleaned@.len() && (#[trigger] cleaned@[i])@ == domain.name@;
                assert(i >= j);
            }
            assert(found == domain_served(domain.name@, served@));
        }
        let d = Domain {
            name: domain.name,
            id: domain.id,
            description: domain.description,
            owner: domain.owner,
            is_empty: !found,
        };
        domains.push(d);
    }
    Domains { is_read_only, domains }
}

/// `rand::random::<u16>`: a random number. Nothing is stated of it but its
/// type.
#[verifier::external_body]
fn random_u16() -> (r: u16) {
    rand::random::<u16>()
}

/// The parent of the top nodes of the tree.
pub open spec fn global_parent() -> Seq<char> {
    seq!['G', 'l', 'o', 'b', 'a', 'l']
}

/// `part` followed by ` [n]`.
pub open spec fn suffixed(part: Seq<char>, n: nat) -> Seq<char> {
    part + seq![' ', '['] + decimal_text(n) + seq![']']
}

/// `name` is `part`, or `part` made distinct by a random number.
pub open spec fn named_after(name: Seq<char>, part: Seq<char>) -> bool {
    name == part || exists|n: nat| n < 65536 && #[trigger] suffixed(part, n) == name
}

/// The parts of a served domain, between its `/`.
pub open spec fn entry_parts(entry: (String, usize)) -> Seq<Seq<char>> {
    split_text(entry.0@, '/')
}

/// `node` stands for the non-empty part `p` of the served domain `entry`: at
/// level `p + 1`, named after the part, and holding the domain's number of
/// paths when the part is the last one.
pub open spec fn node_of_part(node: Node, entry: (String, usize), p: int) -> bool {
    let parts = entry_parts(entry);
    &&& 0 <= p < parts.len()
    &&& parts[p].len() > 0
    &&& node.level == p + 1
    &&& named_after(node.name@, parts[p])
    &&& node.value == if p + 1 == parts.len() { entry.1 as i32 } else { 0i32 }
}

/// `node` stands for a part of one of the served domains.
pub open spec fn node_from(node: Node, data: Seq<(String, usize)>) -> bool {
    exists|e: int, p: int| 0 <= e < data.len() && #[trigger] node_of_part(node, data[e], p)
}

/// Some node at `level` is named after `part`.
pub open spec fn part_covered(nodes: Seq<Node>, part: Seq<char>, level: int) -> bool {
    exists|i: int| 0 <= i < nodes.len() && (#[trigger] nodes[i]).level == level && named_after(nodes[i].name@, part)
}

/// No two nodes are the same node.
pub open spec fn nodes_distinct(nodes: Seq<Node>) -> bool {
    forall|i: int, j: int| 0 <= i < j < nodes.len() ==> !same_node(#[trigger] nodes[i], #[trigger] nodes[j])
}

/// Every node hangs from the top or from a node of the tree at a lower level.
pub open spec fn parents_below(nodes: Seq<Node>) -> bool {
    forall|i: int| 0 <= i < nodes.len() ==>
        (#[trigger] nodes[i]).parent@ == global_parent() || exists|j: int|
            0 <= j < nodes.len() && (#[trigger] nodes[j]).name@ == nodes[i].parent@ && nodes[j].level < nodes[i].level
}

/// Some node is at `level`, named `name`, under `parent`.
pub open spec fn node_in(nodes: Seq<Node>, level: int, name: Seq<char>, parent: Seq<char>) -> bool {
    exists|i: int| 0 <= i < nodes.len() && (#[trigger] nodes[i]).level == level && nodes[i].name@ == name
        && nodes[i].parent@ == parent
}

/// `new` keeps the nodes of `old`, in place, and may add more after them.
pub open spec fn grows(old: Seq<Node>, new: Seq<Node>) -> bool {
    old.len() <= new.len() && forall|i: int| 0 <= i < old.len() ==> new[i] == old[i]
}

/// The index of the last non-empty part before part `p`, or -1.
pub open spec fn last_nonempty_before(parts: Seq<Seq<char>>, p: int) -> int
    decreases p,
{
    if p <= 0 {
        -1
    } else if parts[p - 1].len() > 0 {
        p - 1
    } else {
        last_nonempty_before(parts, p - 1)
    }
}

/// The parent of the node of part `p`, given the names chosen for the
/// parts: the name chosen for the last non-empty part before it, or
/// `Global` when there is none.
pub open spec fn chain_parent(parts: Seq<Seq<char>>, names: Seq<Seq<char>>, p: int) -> Seq<char> {
    let q = last_nonempty_before(parts, p);
    if q < 0 {
        global_parent()
    } else {
        names[q]
    }
}

/// Some node is named `name`, under `parent`.
pub open spec fn node_named_under(nodes: Seq<Node>, name: Seq<char>, parent: Seq<char>) -> bool {
    exists|i: int| 0 <= i < nodes.len() && (#[trigger] nodes[i]).name@ == name && nodes[i].parent@ == parent
}

/// Some node is named `name`, under a parent other than `parent`.
pub open spec fn name_taken_elsewhere(nodes: Seq<Node>, name: Seq<char>, parent: Seq<char>) -> bool {
    exists|i: int| 0 <= i < nodes.len() && (#[trigger] nodes[i]).name@ == name && nodes[i].parent@ != parent
}

/// A naming decision: a part, the parent it hangs from, and the name given
/// to its node.
pub type Naming = (Seq<char>, Seq<char>, Seq<char>);

/// The index of the last decision before decision `i` that gave the name
/// `x`, or -1.
pub open spec fn last_named(hist: Seq<Naming>, i: int, x: Seq<char>) -> int
    decreases i,
{
    if i <= 0 {
        -1
    } else if hist[i - 1].2 == x {
        i - 1
    } else {
        last_named(hist, i - 1, x)
    }
}

/// Decision `i` follows the naming rule: the part keeps its name when no
/// node was given that name before, or when the last node given that name
/// hangs from the same parent; otherwise the name is the part with a
/// random suffix.
pub open spec fn decision_follows_rule(hist: Seq<Naming>, i: int) -> bool {
    let d = hist[i];
    let j = last_named(hist, i, d.0);
    if j < 0 || hist[j].1 == d.1 {
        d.2 == d.0
    } else {
        exists|n: nat| n < 65536 && #[trigger] suffixed(d.0, n) == d.2
    }
}

/// Every decision of the history follows the naming rule.
#[verifier::opaque]
pub open spec fn naming_history(hist: Seq<Naming>) -> bool {
    forall|i: int| 0 <= i < hist.len() ==> #[trigger] decision_follows_rule(hist, i)
}

/// Every decision of the history is a node: its name under its parent.
#[verifier::opaque]
pub open spec fn history_in(nodes: Seq<Node>, hist: Seq<Naming>) -> bool {
    forall|i: int| 0 <= i < hist.len() ==> #[trigger] node_named_under(nodes, hist[i].2, hist[i].1)
}

/// `h2` holds the decisions of `h`, in place, and may hold more after them.
pub open spec fn hist_prefix(h: Seq<Naming>, h2: Seq<Naming>) -> bool {
    h.len() <= h2.len() && forall|i: int| 0 <= i < h.len() ==> h2[i] == h[i]
}

/// Part `p`, when it is not empty, has a node at level `p + 1`, under the
/// name chosen for it, hanging from the node of the last non-empty part
/// before it. The name is the part itself, unless a node of that name hangs
/// from another parent; and it is a decision of the history `hist`.
pub open spec fn chain_step(nodes: Seq<Node>, parts: Seq<Seq<char>>, names: Seq<Seq<char>>, hist: Seq<Naming>, p: int) -> bool {
    parts[p].len() > 0 ==> {
        &&& named_after(names[p], parts[p])
        &&& node_in(nodes, p + 1, names[p], chain_parent(parts, names, p))
        &&& (names[p] == parts[p] || name_taken_elsewhere(nodes, parts[p], chain_parent(parts, names, p)))
        &&& hist.contains((parts[p], chain_parent(parts, names, p), names[p]))
    }
}

/// The parts of a served domain form a chain of nodes in `nodes`, with the
/// names `names` chosen for them by decisions of `hist`.
pub open spec fn chain_in(nodes: Seq<Node>, parts: Seq<Seq<char>>, names: Seq<Seq<char>>, hist: Seq<Naming>) -> bool {
    names.len() == parts.len() && forall|p: int| 0 <= p < parts.len() ==> #[trigger] chain_step(nodes, parts, names, hist, p)
}

/// The parts of a served domain form a chain of nodes in `nodes`, under
/// some choice of names made by decisions of `hist`.
pub open spec fn chained(nodes: Seq<Node>, parts: Seq<Seq<char>>, hist: Seq<Naming>) -> bool {
    exists|names: Seq<Seq<char>>| #[trigger] chain_in(nodes, parts, names, hist)
}

/// The tree `nodes` of the served domains `data` was named by the decisions
/// `hist`, in their order, each following the naming rule.
pub open spec fn named_by_rule(nodes: Seq<Node>, data: Seq<(String, usize)>, hist: Seq<Naming>) -> bool {
    &&& naming_history(hist)
    &&& history_in(nodes, hist)
    &&& forall|e: int| 0 <= e < data.len() ==> #[trigger] chained(nodes, entry_parts(data[e]), hist)
}

/// `used` records, for each name given so far, the parent of the last node
/// given that name (one entry per name).
#[verifier::opaque]
pub open spec fn used_matches(used: Seq<(String, String)>, hist: Seq<Naming>) -> bool {
    &&& forall|a: int, b: int| 0 <= a < b < used.len() ==> (#[trigger] used[a]).0@ != (#[trigger] used[b]).0@
    &&& forall|w: int| 0 <= w < used.len() ==> last_named(hist, hist.len() as int, (#[trigger] used[w]).0@) >= 0
        && hist[last_named(hist, hist.len() as int, used[w].0@)].1 == used[w].1@
    &&& forall|x: Seq<char>| #[trigger] last_named(hist, hist.len() as int, x) >= 0 ==> exists|w: int|
        0 <= w < used.len() && (#[trigger] used[w]).0@ == x
}

proof fn lemma_last_named_bounds(h: Seq<Naming>, i: int, x: Seq<char>)
    requires
        0 <= i <= h.len(),
    ensures
        -1 <= last_named(h, i, x) < i,
        last_named(h, i, x) >= 0 ==> h[last_named(h, i, x)].2 == x,
    decreases i,
{
    if i > 0 && h[i - 1].2 != x {
        lemma_last_named_bounds(h, i - 1, x);
    }
}

proof fn lemma_last_named_push(h: Seq<Naming>, d: Naming, i: int, x: Seq<char>)
    requires
        0 <= i <= h.len(),
    ensures
        last_named(h.push(d), i, x) == last_named(h, i, x),
    decreases i,
{
    if i > 0 {
        assert(h.push(d)[i - 1] == h[i - 1]);
        lemma_last_named_push(h, d, i - 1, x);
    }
}

/// A decision made by `node_name`, on the record `used` of the history, follows the rule.
proof fn lemma_decision_follows_rule(hist: Seq<Naming>, used: Seq<(String, String)>, part: Seq<char>, parent: Seq<char>, name: Seq<char>)
    requires
        naming_history(hist),
        used_matches(used, hist),
        (forall|w: int| 0 <= w < used.len() ==> (#[trigger] used[w]).0@ != part) ==> name == part,
        forall|j: int| #[trigger] first_named(used, part, j) && used[j].1@ == parent ==> name == part,
        forall|j: int| #[trigger] first_named(used, part, j) && used[j].1@ != parent ==> exists|n: nat|
            n < 65536 && #[trigger] suffixed(part, n) == name,
    ensures
        naming_history(hist.push((part, parent, name))),
{
    reveal(naming_history);
    reveal(used_matches);
    let h2 = hist.push((part, parent, name));
    let len = hist.len() as int;
    assert forall|i: int| 0 <= i < h2.len() implies #[trigger] decision_follows_rule(h2, i) by {
        if i < len {
            assert(decision_follows_rule(hist, i));
            assert(h2[i] == hist[i]);
            lemma_last_named_push(hist, (part, parent, name), i, hist[i].0);
            lemma_last_named_bounds(hist, i, hist[i].0);
            if last_named(hist, i, hist[i].0) >= 0 {
                assert(h2[last_named(hist, i, hist[i].0)] == hist[last_named(hist, i, hist[i].0)]);
            }
        } else {
            lemma_last_named_push(hist, (part, parent, name), len, part);
            lemma_last_named_bounds(hist, len, part);
            let j = last_named(hist, len, part);
            if j >= 0 {
                assert(h2[j] == hist[j]);
                let w = choose|w: int| 0 <= w < used.len() && (#[trigger] used[w]).0@ == part;
                assert(first_named(used, part, w)) by {
                    assert forall|v: int| 0 <= v < w implies (#[trigger] used[v]).0@ != part by {
                        assert(used[v].0@ != used[w].0@);
                    }
                }
                assert(hist[last_named(hist, len, used[w].0@)].1 == used[w].1@);
            } else {
                assert forall|w: int| 0 <= w < used.len() implies (#[trigger] used[w]).0@ != part by {
                    assert(last_named(hist, len, used[w].0@) >= 0);
                }
            }
        }
    }
}

/// After `record_used(name, parent)`, the record matches the history with
/// the new decision.
proof fn lemma_used_matches_after_record(
    old_used: Seq<(String, String)>,
    used: Seq<(String, String)>,
    hist: Seq<Naming>,
    part: Seq<char>,
    name: String,
    parent: String,
)
    requires
        used_matches(old_used, hist),
        (forall|w: int| 0 <= w < old_used.len() ==> (#[trigger] old_used[w]).0@ != name@) ==> used == old_used.push((name, parent)),
        (exists|j: int| 0 <= j < old_used.len() && (#[trigger] old_used[j]).0@ == name@) ==> exists|j: int|
            0 <= j < old_used.len() && (#[trigger] old_used[j]).0@ == name@
            && (forall|w: int| 0 <= w < j ==> (#[trigger] old_used[w]).0@ != name@)
            && used == old_used.update(j, (name, parent)),
    ensures
        used_matches(used, hist.push((part, parent@, name@))),
{
    reveal(used_matches);
    let d = (part, parent@, name@);
    let h2 = hist.push(d);
    let len = hist.len() as int;
    assert(h2.len() == len + 1);
    assert forall|x: Seq<char>| x != name@ implies last_named(h2, len + 1, x) == last_named(hist, len, x) by {
        lemma_last_named_push(hist, d, len, x);
    }
    assert(last_named(h2, len + 1, name@) == len);
    if exists|j: int| 0 <= j < old_used.len() && (#[trigger] old_used[j]).0@ == name@ {
        let j = choose|j: int| 0 <= j < old_used.len() && (#[trigger] old_used[j]).0@ == name@
            && (forall|w: int| 0 <= w < j ==> (#[trigger] old_used[w]).0@ != name@)
            && used == old_used.update(j, (name, parent));
        assert forall|a: int, b: int| 0 <= a < b < used.len() implies (#[trigger] used[a]).0@ != (#[trigger] used[b]).0@ by {
            assert(old_used[a].0@ != old_used[b].0@);
            if a == j {
                assert(used[a].0@ == old_used[j].0@);
            }
            if b == j {
                assert(used[b].0@ == old_used[j].0@);
            }
        }
        assert forall|w: int| 0 <= w < used.len() implies last_named(h2, len + 1, (#[trigger] used[w]).0@) >= 0
            && h2[last_named(h2, len + 1, used[w].0@)].1 == used[w].1@ by {
            if w != j {
                assert(used[w] == old_used[w]);
                assert(old_used[w].0@ != old_used[j].0@) by {
                    if w < j {
                        assert(old_used[w].0@ != old_used[j].0@);
                    } else {
                        assert(old_used[j].0@ != old_used[w].0@);
                    }
                }
                lemma_last_named_push(hist, d, len, used[w].0@);
                lemma_last_named_bounds(hist, len, used[w].0@);
                assert(h2[last_named(hist, len, used[w].0@)] == hist[last_named(hist, len, used[w].0@)]);
            }
        }
        assert forall|x: Seq<char>| #[trigger] last_named(h2, len + 1, x) >= 0 implies exists|w: int|
            0 <= w < used.len() && (#[trigger] used[w]).0@ == x by {
            if x == name@ {
                assert(used[j].0@ == x);
            } else {
                lemma_last_named_push(hist, d, len, x);
                assert(last_named(hist, len, x) >= 0);
                let w = choose|w: int| 0 <= w < old_used.len() && (#[trigger] old_used[w]).0@ == x;
                assert(w != j);
                assert(used[w] == old_used[w]);
            }
        }
    } else {
        assert forall|a: int, b: int| 0 <= a < b < used.len() implies (#[trigger] used[a]).0@ != (#[trigger] used[b]).0@ by {
            if b < old_used.len() {
                assert(old_used[a].0@ != old_used[b].0@);
            } else {
                assert(used[a] == old_used[a]);
            }
        }
        assert forall|w: int| 0 <= w < used.len() implies last_named(h2, len + 1, (#[trigger] used[w]).0@) >= 0
            && h2[last_named(h2, len + 1, used[w].0@)].1 == used[w].1@ by {
            if w < old_used.len() {
                assert(used[w] == old_used[w]);
                lemma_last_named_push(hist, d, len, used[w].0@);
                lemma_last_named_bounds(hist, len, used[w].0@);
                assert(h2[last_named(hist, len, used[w].0@)] == hist[last_named(hist, len, used[w].0@)]);
            }
        }
        assert forall|x: Seq<char>| #[trigger] last_named(h2, len + 1, x) >= 0 implies exists|w: int|
            0 <= w < used.len() && (#[trigger] used[w]).0@ == x by {
            if x == name@ {
                assert(used[old_used.len() as int].0@ == x);
            } else {
                lemma_last_named_push(hist, d, len, x);
                assert(last_named(hist, len, x) >= 0);
                let w = choose|w: int| 0 <= w < old_used.len() && (#[trigger] old_used[w]).0@ == x;
                assert(used[w] == old_used[w]);
            }
        }
    }
}

proof fn lemma_history_in_grows(old: Seq<Node>, new: Seq<Node>, hist: Seq<Naming>, d: Naming)
    requires
        grows(old, new),
        history_in(old, hist),
        node_named_under(new, d.2, d.1),
    ensures
        history_in(new, hist.push(d)),
{
    reveal(history_in);
    assert forall|i: int| 0 <= i < hist.push(d).len() implies #[trigger] node_named_under(new, hist.push(d)[i].2, hist.push(d)[i].1) by {
        if i < hist.len() {
            assert(hist.push(d)[i] == hist[i]);
            assert(node_named_under(old, hist[i].2, hist[i].1));
            lemma_taken_grows(old, new, hist[i].2, hist[i].1);
        }
    }
}

proof fn lemma_chain_hist_grows(nodes: Seq<Node>, parts: Seq<Seq<char>>, names: Seq<Seq<char>>, h: Seq<Naming>, h2: Seq<Naming>)
    requires
        hist_prefix(h, h2),
        chain_in(nodes, parts, names, h),
    ensures
        chain_in(nodes, parts, names, h2),
{
    assert forall|p: int| 0 <= p < parts.len() implies #[trigger] chain_step(nodes, parts, names, h2, p) by {
        assert(chain_step(nodes, parts, names, h, p));
        if parts[p].len() > 0 {
            let t = (parts[p], chain_parent(parts, names, p), names[p]);
            let i = choose|i: int| 0 <= i < h.len() && h[i] == t;
            assert(h2[i] == t);
        }
    }
}

proof fn lemma_last_nonempty_before(parts: Seq<Seq<char>>, p: int)
    requires
        0 <= p <= parts.len(),
    ensures
        -1 <= last_nonempty_before(parts, p) < p,
        last_nonempty_before(parts, p) >= 0 ==> parts[last_nonempty_before(parts, p)].len() > 0,
    decreases p,
{
    if p > 0 && parts[p - 1].len() == 0 {
        lemma_last_nonempty_before(parts, p - 1);
    }
}

proof fn lemma_node_in_grows(old: Seq<Node>, new: Seq<Node>, level: int, name: Seq<char>, parent: Seq<char>)
    requires
        grows(old, new),
        node_in(old, level, name, parent),
    ensures
        node_in(new, level, name, parent),
{
    let i = choose|i: int| 0 <= i < old.len() && (#[trigger] old[i]).level == level && old[i].name@ == name
        && old[i].parent@ == parent;
    assert(new[i] == old[i]);
}

proof fn lemma_chain_grows(old: Seq<Node>, new: Seq<Node>, parts: Seq<Seq<char>>, names: Seq<Seq<char>>, hist: Seq<Naming>)
    requires
        grows(old, new),
        chain_in(old, parts, names, hist),
    ensures
        chain_in(new, parts, names, hist),
{
    assert forall|p: int| 0 <= p < parts.len() implies #[trigger] chain_step(new, parts, names, hist, p) by {
        assert(chain_step(old, parts, names, hist, p));
        if parts[p].len() > 0 {
            lemma_node_in_grows(old, new, p + 1, names[p], chain_parent(parts, names, p));
            lemma_taken_grows(old, new, parts[p], chain_parent(parts, names, p));
        }
    }
}

proof fn lemma_taken_grows(old: Seq<Node>, new: Seq<Node>, name: Seq<char>, parent: Seq<char>)
    requires
        grows(old, new),
    ensures
        name_taken_elsewhere(old, name, parent) ==> name_taken_elsewhere(new, name, parent),
        node_named_under(old, name, parent) ==> node_named_under(new, name, parent),
{
    if name_taken_elsewhere(old, name, parent) {
        let i = choose|i: int| 0 <= i < old.len() && (#[trigger] old[i]).name@ == name && old[i].parent@ != parent;
        assert(new[i] == old[i]);
    }
    if node_named_under(old, name, parent) {
        let i = choose|i: int| 0 <= i < old.len() && (#[trigger] old[i]).name@ == name && old[i].parent@ == parent;
        assert(new[i] == old[i]);
    }
}

/// Every entry of `used` (a name with its parent) is a node of `nodes`.
pub open spec fn used_known(nodes: Seq<Node>, used: Seq<(String, String)>) -> bool {
    forall|j: int| 0 <= j < used.len() ==> #[trigger] node_named_under(nodes, used[j].0@, used[j].1@)
}

proof fn lemma_used_known_grows(old: Seq<Node>, new: Seq<Node>, used: Seq<(String, String)>)
    requires
        grows(old, new),
        used_known(old, used),
    ensures
        used_known(new, used),
{
    assert forall|j: int| 0 <= j < used.len() implies #[trigger] node_named_under(new, used[j].0@, used[j].1@) by {
        lemma_taken_grows(old, new, used[j].0@, used[j].1@);
    }
}

/// Entry `j` is the first entry of `used` named `name`.
pub open spec fn first_named(used: Seq<(String, String)>, name: Seq<char>, j: int) -> bool {
    &&& 0 <= j < used.len()
    &&& used[j].0@ == name
    &&& forall|w: int| 0 <= w < j ==> (#[trigger] used[w]).0@ != name
}

/// Adds `node` unless the same node is there already.
fn insert_node(nodes: &mut Vec<Node>, node: Node)
    ensures
        (exists|i: int| 0 <= i < old(nodes)@.len() && same_node(#[trigger] old(nodes)@[i], node)) ==> final(nodes)@ == old(nodes)@,
        !(exists|i: int| 0 <= i < old(nodes)@.len() && same_node(#[trigger] old(nodes)@[i], node)) ==> final(nodes)@ == old(nodes)@.push(node),
{
    let mut i: usize = 0;
    while i < nodes.len()
        invariant
            i <= nodes@.len(),
            nodes@ == old(nodes)@,
            forall|w: int| 0 <= w < i ==> !same_node(#[trigger] nodes@[w], node),
        decreases nodes@.len() - i,
    {
        if str_eq(nodes[i].name.as_str(), node.name.as_str()) && str_eq(nodes[i].parent.as_str(), node.parent.as_str())
            && nodes[i].level == node.level {
            return;
        }
        i = i + 1;
    }
    nodes.push(node);
}

/// The index of the first entry named `name`, if any.
fn find_used(used: &Vec<(String, String)>, name: &str) -> (r: Option<usize>)
    ensures
        r matches Some(j) ==> j < used@.len() && used@[j as int].0@ == name@
            && forall|w: int| 0 <= w < j ==> (#[trigger] used@[w]).0@ != name@,
        r is None ==> forall|w: int| 0 <= w < used@.len() ==> (#[trigger] used@[w]).0@ != name@,
{
    let mut j: usize = 0;
    while j < used.len()
        invariant
            j <= used@.len(),
            forall|w: int| 0 <= w < j ==> (#[trigger] used@[w]).0@ != name@,
        decreases used@.len() - j,
    {
        if str_eq(used[j].0.as_str(), name) {
            return Some(j);
        }
        j = j + 1;
    }
    None
}

/// Records that `name` hangs from `parent`: the first entry named `name`
/// is replaced, or the entry is added when there is none.
fn record_used(used: &mut Vec<(String, String)>, name: String, parent: String)
    ensures
        (forall|w: int| 0 <= w < old(used)@.len() ==> (#[trigger] old(used)@[w]).0@ != name@)
            ==> final(used)@ == old(used)@.push((name, parent)),
        (exists|j: int| 0 <= j < old(used)@.len() && (#[trigger] old(used)@[j]).0@ == name@) ==> exists|j: int|
            0 <= j < old(used)@.len() && (#[trigger] old(used)@[j]).0@ == name@
            && (forall|w: int| 0 <= w < j ==> (#[trigger] old(used)@[w]).0@ != name@)
            && final(used)@ == old(used)@.update(j, (name, parent)),
{
    match find_used(used, name.as_str()) {
        Some(j) => {
            used.set(j, (name, parent));
        },
        None => {
            used.push((name, parent));
        },
    }
}

/// The name of the node for `part` under `parent`: the part itself, unless
/// the part was used already under another parent; then the part followed
/// by a random number.
fn node_name(used: &Vec<(String, String)>, part: &String, parent: &String) -> (r: String)
    ensures
        named_after(r@, part@),
        (forall|w: int| 0 <= w < used@.len() ==> (#[trigger] used@[w]).0@ != part@) ==> r@ == part@,
        forall|j: int| #[trigger] first_named(used@, part@, j) && used@[j].1@ == parent@ ==> r@ == part@,
        forall|j: int| #[trigger] first_named(used@, part@, j) && used@[j].1@ != parent@ ==> exists|n: nat|
            n < 65536 && #[trigger] suffixed(part@, n) == r@,
        r@ != part@ ==> exists|j: int| 0 <= j < used@.len() && (#[trigger] used@[j]).0@ == part@ && used@[j].1@ != parent@,
{
    match find_used(used, part.as_str()) {
        Some(j) => {
            if str_eq(used[j].1.as_str(), parent.as_str()) {
                part.clone()
            } else {
                let n = random_u16();
                let digits = u64_to_decimal(n as u64);
                proof {
                    reveal_strlit(" [");
                    reveal_strlit("]");
                }
                let mut name = part.clone();
                name.append(" [");
                name.append(digits.as_str());
                name.append("]");
                proof {
                    assert(name@ == suffixed(part@, n as nat));
                }
                name
            }
        },
        None => part.clone(),
    }
}

proof fn lemma_part_covered_grows(old: Seq<Node>, new: Seq<Node>, part: Seq<char>, level: int)
    requires
        grows(old, new),
        part_covered(old, part, level),
    ensures
        part_covered(new, part, level),
{
    let i = choose|i: int| 0 <= i < old.len() && (#[trigger] old[i]).level == level && named_after(old[i].name@, part);
    assert(new[i] == old[i]);
}

/// What holds of the nodes once `node` has been inserted (or found there).
proof fn lemma_after_insert(old: Seq<Node>, new: Seq<Node>, node: Node, data: Seq<(String, usize)>, e: int, pi: int)
    requires
        (exists|i: int| 0 <= i < old.len() && same_node(#[trigger] old[i], node)) ==> new == old,
        !(exists|i: int| 0 <= i < old.len() && same_node(#[trigger] old[i], node)) ==> new == old.push(node),
        nodes_distinct(old),
        parents_below(old),
        forall|i: int| 0 <= i < old.len() ==> node_from(#[trigger] old[i], data),
        0 <= e < data.len(),
        node_of_part(node, data[e], pi),
        node.parent@ == global_parent() || exists|j: int|
            0 <= j < old.len() && (#[trigger] old[j]).name@ == node.parent@ && old[j].level < node.level,
    ensures
        grows(old, new),
        nodes_distinct(new),
        parents_below(new),
        forall|i: int| 0 <= i < new.len() ==> node_from(#[trigger] new[i], data),
        node_in(new, node.level as int, node.name@, node.parent@),
        part_covered(new, entry_parts(data[e])[pi], pi + 1),
{
    if exists|i: int| 0 <= i < old.len() && same_node(#[trigger] old[i], node) {
        let i = choose|i: int| 0 <= i < old.len() && same_node(#[trigger] old[i], node);
        assert(new[i].level == pi + 1 && named_after(new[i].name@, entry_parts(data[e])[pi]));
    } else {
        let last = old.len() as int;
        assert(new[last] == node);
        assert forall|i: int, j: int| 0 <= i < j < new.len() implies !same_node(#[trigger] new[i], #[trigger] new[j]) by {
            assert(new[i] == old[i]);
            if j < last {
                assert(new[j] == old[j]);
            }
        }
        assert forall|i: int| 0 <= i < new.len() implies node_from(#[trigger] new[i], data) by {
            if i < last {
                assert(new[i] == old[i]);
            } else {
                assert(node_of_part(new[i], data[e], pi));
            }
        }
        assert forall|i: int| 0 <= i < new.len() implies (#[trigger] new[i]).parent@ == global_parent() || exists|j: int|
            0 <= j < new.len() && (#[trigger] new[j]).name@ == new[i].parent@ && new[j].level < new[i].level by {
            if i < last {
                assert(new[i] == old[i]);
                if old[i].parent@ != global_parent() {
                    let j = choose|j: int| 0 <= j < old.len() && (#[trigger] old[j]).name@ == old[i].parent@ && old[j].level < old[i].level;
                    assert(new[j] == old[j]);
                }
            } else if node.parent@ != global_parent() {
                let j = choose|j: int| 0 <= j < old.len() && (#[trigger] old[j]).name@ == node.parent@ && old[j].level < node.level;
                assert(new[j] == old[j]);
            }
        }
        assert(new[last].level == pi + 1 && named_after(new[last].name@, entry_parts(data[e])[pi]));
    }
}

proof fn lemma_grows_trans(a: Seq<Node>, b: Seq<Node>, c: Seq<Node>)
    requires
        grows(a, b),
        grows(b, c),
    ensures
        grows(a, c),
{
}

proof fn lemma_chain_covers(nodes: Seq<Node>, parts: Seq<Seq<char>>, names: Seq<Seq<char>>, hist: Seq<Naming>, p: int)
    requires
        chain_in(nodes, parts, names, hist),
        0 <= p < parts.len(),
        parts[p].len() > 0,
    ensures
        part_covered(nodes, parts[p], p + 1),
{
    assert(chain_step(nodes, parts, names, hist, p));
    let i = choose|i: int| 0 <= i < nodes.len() && (#[trigger] nodes[i]).level == p + 1 && nodes[i].name@ == names[p]
        && nodes[i].parent@ == chain_parent(parts, names, p);
    assert(named_after(nodes[i].name@, parts[p]));
}

proof fn lemma_used_after_insert(
    old_nodes: Seq<Node>,
    nodes: Seq<Node>,
    old_used: Seq<(String, String)>,
    used: Seq<(String, String)>,
    name: String,
    parent: String,
    level: int,
)
    requires
        used_known(old_nodes, old_used),
        grows(old_nodes, nodes),
        node_in(nodes, level, name@, parent@),
        (forall|w: int| 0 <= w < old_used.len() ==> (#[trigger] old_used[w]).0@ != name@) ==> used == old_used.push((name, parent)),
        (exists|j: int| 0 <= j < old_used.len() && (#[trigger] old_used[j]).0@ == name@) ==> exists|j: int|
            0 <= j < old_used.len() && (#[trigger] old_used[j]).0@ == name@
            && (forall|w: int| 0 <= w < j ==> (#[trigger] old_used[w]).0@ != name@)
            && used == old_used.update(j, (name, parent)),
    ensures
        used_known(nodes, used),
{
    lemma_used_known_grows(old_nodes, nodes, old_used);
    assert(node_named_under(nodes, name@, parent@)) by {
        let i = choose|i: int| 0 <= i < nodes.len() && (#[trigger] nodes[i]).level == level && nodes[i].name@ == name@
            && nodes[i].parent@ == parent@;
    }
    if exists|j: int| 0 <= j < old_used.len() && (#[trigger] old_used[j]).0@ == name@ {
        let j = choose|j: int| 0 <= j < old_used.len() && (#[trigger] old_used[j]).0@ == name@
            && (forall|w: int| 0 <= w < j ==> (#[trigger] old_used[w]).0@ != name@)
            && used == old_used.update(j, (name, parent));
        assert forall|w: int| 0 <= w < used.len() implies #[trigger] node_named_under(nodes, used[w].0@, used[w].1@) by {
            if w != j {
                assert(used[w] == old_used[w]);
                assert(node_named_under(nodes, old_used[w].0@, old_used[w].1@));
            }
        }
    } else {
        assert forall|w: int| 0 <= w < used.len() implies #[trigger] node_named_under(nodes, used[w].0@, used[w].1@) by {
            if w < old_used.len() {
                assert(used[w] == old_used[w]);
                assert(node_named_under(nodes, old_used[w].0@, old_used[w].1@));
            }
        }
    }
}

proof fn lemma_chain_extend(
    old_nodes: Seq<Node>,
    nodes: Seq<Node>,
    ps: Seq<Seq<char>>,
    names: Seq<Seq<char>>,
    name: Seq<char>,
    pi: int,
    hist: Seq<Naming>,
    hist2: Seq<Naming>,
)
    requires
        grows(old_nodes, nodes),
        hist_prefix(hist, hist2),
        hist2.contains((ps[pi], chain_parent(ps, names, pi), name)),
        names.len() == pi,
        0 <= pi < ps.len(),
        ps[pi].len() > 0,
        forall|p: int| 0 <= p < pi ==> #[trigger] chain_step(old_nodes, ps, names, hist, p),
        named_after(name, ps[pi]),
        node_in(nodes, pi + 1, name, chain_parent(ps, names, pi)),
        name == ps[pi] || name_taken_elsewhere(nodes, ps[pi], chain_parent(ps, names, pi)),
    ensures
        forall|p: int| 0 <= p < pi + 1 ==> #[trigger] chain_step(nodes, ps, names.push(name), hist2, p),
        chain_parent(ps, names.push(name), pi + 1) == name,
{
    let new_names = names.push(name);
    assert forall|p: int| 0 <= p < pi + 1 implies #[trigger] chain_step(nodes, ps, new_names, hist2, p) by {
        lemma_last_nonempty_before(ps, p);
        if p < pi {
            assert(chain_step(old_nodes, ps, names, hist, p));
            assert(new_names[p] == names[p]);
            assert(chain_parent(ps, new_names, p) == chain_parent(ps, names, p));
            if ps[p].len() > 0 {
                lemma_node_in_grows(old_nodes, nodes, p + 1, names[p], chain_parent(ps, names, p));
                lemma_taken_grows(old_nodes, nodes, ps[p], chain_parent(ps, names, p));
                let t = (ps[p], chain_parent(ps, names, p), names[p]);
                let i = choose|i: int| 0 <= i < hist.len() && hist[i] == t;
                assert(hist2[i] == t);
            }
        } else {
            assert(new_names[p] == name);
            assert(chain_parent(ps, new_names, p) == chain_parent(ps, names, p));
        }
    }
    assert(last_nonempty_before(ps, pi + 1) == pi);
}

proof fn lemma_chain_skip(nodes: Seq<Node>, ps: Seq<Seq<char>>, names: Seq<Seq<char>>, x: Seq<char>, pi: int, hist: Seq<Naming>)
    requires
        names.len() == pi,
        0 <= pi < ps.len(),
        ps[pi].len() == 0,
        forall|p: int| 0 <= p < pi ==> #[trigger] chain_step(nodes, ps, names, hist, p),
    ensures
        forall|p: int| 0 <= p < pi + 1 ==> #[trigger] chain_step(nodes, ps, names.push(x), hist, p),
        chain_parent(ps, names.push(x), pi + 1) == chain_parent(ps, names, pi),
{
    let new_names = names.push(x);
    assert forall|p: int| 0 <= p < pi + 1 implies #[trigger] chain_step(nodes, ps, new_names, hist, p) by {
        if p < pi {
            assert(chain_step(nodes, ps, names, hist, p));
            lemma_last_nonempty_before(ps, p);
            assert(new_names[p] == names[p]);
            assert(chain_parent(ps, new_names, p) == chain_parent(ps, names, p));
        }
    }
    lemma_last_nonempty_before(ps, pi);
    assert(last_nonempty_before(ps, pi + 1) == last_nonempty_before(ps, pi));
}

/// What holds once the node of a non-empty part has been named, recorded
/// and inserted.
proof fn lemma_named_part_step(
    start: Seq<Node>,
    old_nodes: Seq<Node>,
    nodes: Seq<Node>,
    node: Node,
    data: Seq<(String, usize)>,
    e: int,
    pi: int,
    ps: Seq<Seq<char>>,
    names: Seq<Seq<char>>,
    hist0: Seq<Naming>,
    hist: Seq<Naming>,
    old_used: Seq<(String, String)>,
    used: Seq<(String, String)>,
    name: String,
    parent: String,
)
    requires
        (exists|i: int| 0 <= i < old_nodes.len() && same_node(#[trigger] old_nodes[i], node)) ==> nodes == old_nodes,
        !(exists|i: int| 0 <= i < old_nodes.len() && same_node(#[trigger] old_nodes[i], node)) ==> nodes == old_nodes.push(node),
        nodes_distinct(old_nodes),
        parents_below(old_nodes),
        forall|i: int| 0 <= i < old_nodes.len() ==> node_from(#[trigger] old_nodes[i], data),
        0 <= e < data.len(),
        ps == entry_parts(data[e]),
        node_of_part(node, data[e], pi),
        node.parent@ == global_parent() || exists|j: int|
            0 <= j < old_nodes.len() && (#[trigger] old_nodes[j]).name@ == node.parent@ && old_nodes[j].level < node.level,
        node.level == pi + 1,
        node.name@ == name@,
        node.parent@ == parent@,
        grows(start, old_nodes),
        used_known(old_nodes, old_used),
        (forall|w: int| 0 <= w < old_used.len() ==> (#[trigger] old_used[w]).0@ != name@) ==> used == old_used.push((name, parent)),
        (exists|j: int| 0 <= j < old_used.len() && (#[trigger] old_used[j]).0@ == name@) ==> exists|j: int|
            0 <= j < old_used.len() && (#[trigger] old_used[j]).0@ == name@
            && (forall|w: int| 0 <= w < j ==> (#[trigger] old_used[w]).0@ != name@)
            && used == old_used.update(j, (name, parent)),
        hist_prefix(hist0, hist),
        history_in(old_nodes, hist),
        names.len() == pi,
        0 <= pi < ps.len(),
        ps[pi].len() > 0,
        forall|p: int| 0 <= p < pi ==> #[trigger] chain_step(old_nodes, ps, names, hist, p),
        parent@ == chain_parent(ps, names, pi),
        named_after(name@, ps[pi]),
        name@ == ps[pi] || name_taken_elsewhere(old_nodes, ps[pi], parent@),
    ensures
        nodes_distinct(nodes),
        parents_below(nodes),
        grows(start, nodes),
        used_known(nodes, used),
        forall|i: int| 0 <= i < nodes.len() ==> node_from(#[trigger] nodes[i], data),
        hist_prefix(hist0, hist.push((ps[pi], parent@, name@))),
        history_in(nodes, hist.push((ps[pi], parent@, name@))),
        forall|p: int| 0 <= p < pi + 1 ==> #[trigger] chain_step(nodes, ps, names.push(name@), hist.push((ps[pi], parent@, name@)), p),
        chain_parent(ps, names.push(name@), pi + 1) == name@,
{
    let d: Naming = (ps[pi], parent@, name@);
    let hist2 = hist.push(d);
    lemma_after_insert(old_nodes, nodes, node, data, e, pi);
    lemma_grows_trans(start, old_nodes, nodes);
    lemma_taken_grows(old_nodes, nodes, ps[pi], parent@);
    lemma_used_after_insert(old_nodes, nodes, old_used, used, name, parent, pi + 1);
    assert(node_named_under(nodes, name@, parent@)) by {
        let i = choose|i: int| 0 <= i < nodes.len() && (#[trigger] nodes[i]).level == pi + 1 && nodes[i].name@ == name@
            && nodes[i].parent@ == parent@;
    }
    lemma_history_in_grows(old_nodes, nodes, hist, d);
    assert(hist2[hist.len() as int] == d);
    assert(hist2.contains((ps[pi], chain_parent(ps, names, pi), name@)));
    lemma_chain_extend(old_nodes, nodes, ps, names, name@, pi, hist, hist2);
}

/// Adds the nodes of the served domain `data[e]`, part after part.
#[verifier::rlimit(60)]
#[verifier::spinoff_prover]
fn add_entry(
    nodes: &mut Vec<Node>,
    used: &mut Vec<(String, String)>,
    data: &Vec<(String, usize)>,
    e: usize,
    Ghost(hist0): Ghost<Seq<Naming>>,
) -> (out: Ghost<(Seq<Seq<char>>, Seq<Naming>)>)
    requires
        e < data@.len(),
        nodes_distinct(old(nodes)@),
        parents_below(old(nodes)@),
        forall|i: int| 0 <= i < old(nodes)@.len() ==> node_from(#[trigger] old(nodes)@[i], data@),
        used_known(old(nodes)@, old(used)@),
        naming_history(hist0),
        history_in(old(nodes)@, hist0),
        used_matches(old(used)@, hist0),
    ensures
        used_known(final(nodes)@, final(used)@),
        grows(old(nodes)@, final(nodes)@),
        nodes_distinct(final(nodes)@),
        parents_below(final(nodes)@),
        forall|i: int| 0 <= i < final(nodes)@.len() ==> node_from(#[trigger] final(nodes)@[i], data@),
        hist_prefix(hist0, out@.1),
        naming_history(out@.1),
        history_in(final(nodes)@, out@.1),
        used_matches(final(used)@, out@.1),
        chain_in(final(nodes)@, entry_parts(data@[e as int]), out@.0, out@.1),
{
    let k = &data[e].0;
    let v = data[e].1;
    let parts = split_by(k.as_str(), '/');
    let domains_size = parts.len();
    let ghost ps = entry_parts(data@[e as int]);
    let ghost start = nodes@;
    proof {
        reveal_strlit("Global");
    }
    let mut parent = String::from_str("Global");
    let ghost mut names: Seq<Seq<char>> = Seq::empty();
    let ghost mut hist: Seq<Naming> = hist0;
    let mut pi: usize = 0;
    while pi < parts.len()
        invariant
            e < data@.len(),
            pi <= parts@.len(),
            domains_size == parts@.len(),
            ps == entry_parts(data@[e as int]),
            parts@.map_values(|x: String| x@) == ps,
            v == data@[e as int].1,
            nodes_distinct(nodes@),
            parents_below(nodes@),
            grows(start, nodes@),
            used_known(nodes@, used@),
            hist_prefix(hist0, hist),
            naming_history(hist),
            history_in(nodes@, hist),
            used_matches(used@, hist),
            forall|i: int| 0 <= i < nodes@.len() ==> node_from(#[trigger] nodes@[i], data@),
            names.len() == pi,
            forall|p: int| 0 <= p < pi ==> #[trigger] chain_step(nodes@, ps, names, hist, p),
            parent@ == chain_parent(ps, names, pi as int),
        decreases parts@.len() - pi,
    {
        let part = &parts[pi];
        proof {
            assert(part@ == ps[pi as int]);
            lemma_last_nonempty_before(ps, pi as int);
        }
        if !part.as_str().is_empty() {
            let value: usize = if pi + 1 == domains_size { v } else { 0 };
            let name = node_name(used, part, &parent);
            let ghost old_used = used@;
            proof {
                lemma_decision_follows_rule(hist, old_used, part@, parent@, name@);
                if name@ != part@ {
                    let j = choose|j: int| 0 <= j < old_used.len() && (#[trigger] old_used[j]).0@ == part@ && old_used[j].1@ != parent@;
                    assert(node_named_under(nodes@, old_used[j].0@, old_used[j].1@));
                    let i = choose|i: int| 0 <= i < nodes@.len() && (#[trigger] nodes@[i]).name@ == old_used[j].0@
                        && nodes@[i].parent@ == old_used[j].1@;
                    assert(name_taken_elsewhere(nodes@, part@, parent@));
                }
            }
            record_used(used, name.clone(), parent.clone());
            proof {
                lemma_used_matches_after_record(old_used, used@, hist, part@, name, parent);
            }
            let node = Node { level: pi + 1, name: name.clone(), parent: parent.clone(), value: value as i32 };
            let ghost old_nodes = nodes@;
            proof {
                assert(node_of_part(node, data@[e as int], pi as int));
                let q = last_nonempty_before(ps, pi as int);
                if q >= 0 {
                    assert(chain_step(old_nodes, ps, names, hist, q));
                    let i = choose|i: int| 0 <= i < old_nodes.len() && (#[trigger] old_nodes[i]).level == q + 1
                        && old_nodes[i].name@ == names[q] && old_nodes[i].parent@ == chain_parent(ps, names, q);
                    assert(old_nodes[i].name@ == node.parent@ && old_nodes[i].level < node.level);
                }
            }
            insert_node(nodes, node);
            proof {
                let d: Naming = (part@, parent@, name@);
                lemma_named_part_step(
                    start, old_nodes, nodes@, node, data@, e as int, pi as int, ps, names, hist0, hist, old_used, used@, name, parent,
                );
                names = names.push(name@);
                hist = hist.push(d);
            }
            parent = name;
        } else {
            proof {
                lemma_chain_skip(nodes@, ps, names, part@, pi as int, hist);
                names = names.push(part@);
            }
        }
        pi = pi + 1;
    }
    Ghost((names, hist))
}

/// The tree of subdomains: for each served domain (with its number of
/// paths), one node per non-empty part between its `/`, each hanging from
/// the node of the last non-empty part before it (the first from `Global`),
/// one level down. Nodes are named by decisions taken in order: a part
/// keeps its name when no node had that name before, or when the last node
/// given that name hangs from the same parent; otherwise it is given a
/// random suffix.
pub fn get_domains_stats(data: &Vec<(String, usize)>) -> (r: Vec<Node>)
    ensures
        nodes_distinct(r@),
        parents_below(r@),
        forall|i: int| 0 <= i < r@.len() ==> node_from(#[trigger] r@[i], data@),
        forall|e: int, p: int| 0 <= e < data@.len() && 0 <= p < entry_parts(data@[e]).len()
            && (#[trigger] entry_parts(data@[e])[p]).len() > 0 ==> part_covered(r@, entry_parts(data@[e])[p], p + 1),
        exists|hist: Seq<Naming>| #[trigger] named_by_rule(r@, data@, hist),
{
    let mut nodes: Vec<Node> = Vec::new();
    let mut used: Vec<(String, String)> = Vec::new();
    let ghost mut hist: Seq<Naming> = Seq::empty();
    proof {
        assert(naming_history(hist)) by {
            reveal(naming_history);
        }
        assert(history_in(nodes@, hist)) by {
            reveal(history_in);
        }
        assert(used_matches(used@, hist)) by {
            reveal(used_matches);
        }
    }
    let mut e: usize = 0;
    while e < data.len()
        invariant
            e <= data@.len(),
            nodes_distinct(nodes@),
            parents_below(nodes@),
            forall|i: int| 0 <= i < nodes@.len() ==> node_from(#[trigger] nodes@[i], data@),
            used_known(nodes@, used@),
            naming_history(hist),
            history_in(nodes@, hist),
            used_matches(used@, hist),
            forall|w: int| 0 <= w < e ==> #[trigger] chained(nodes@, entry_parts(data@[w]), hist),
        decreases data@.len() - e,
    {
        let ghost before = nodes@;
        let ghost hist_before = hist;
        let out = add_entry(&mut nodes, &mut used, data, e, Ghost(hist));
        proof {
            hist = out@.1;
            assert forall|w: int| 0 <= w < e + 1 implies #[trigger] chained(nodes@, entry_parts(data@[w]), hist) by {
                if w < e {
                    assert(chained(before, entry_parts(data@[w]), hist_before));
                    let nm = choose|nm: Seq<Seq<char>>| #[trigger] chain_in(before, entry_parts(data@[w]), nm, hist_before);
                    lemma_chain_grows(before, nodes@, entry_parts(data@[w]), nm, hist_before);
                    lemma_chain_hist_grows(nodes@, entry_parts(data@[w]), nm, hist_before, hist);
                } else {
                    assert(chain_in(nodes@, entry_parts(data@[w]), out@.0, hist));
                }
            }
        }
        e = e + 1;
    }
    proof {
        assert forall|e: int, p: int| 0 <= e < data@.len() && 0 <= p < entry_parts(data@[e]).len()
            && (#[trigger] entry_parts(data@[e])[p]).len() > 0 implies part_covered(nodes@, entry_parts(data@[e])[p], p + 1) by {
            assert(chained(nodes@, entry_parts(data@[e]), hist));
            let nm = choose|nm: Seq<Seq<char>>| #[trigger] chain_in(nodes@, entry_parts(data@[e]), nm, hist);
            lemma_chain_covers(nodes@, entry_parts(data@[e]), nm, hist, p);
        }
        assert(named_by_rule(nodes@, data@, hist));
    }
    nodes
}

/// What deleting a domain comes to.
#[derive(Debug, Clone, Copy, PartialEq, Eq, Structural)]
pub enum DomainDeletion {
    /// The domain has APIs attached (this many) and stays.
    Refused { apis: usize },
    /// The domain has no API attached and is deleted.
    Allowed,
}

/// A domain can be deleted only when no API is attached to it.
pub fn delete_domain(apis_attached: usize) -> (r: DomainDeletion)
    ensures
        apis_attached == 0 ==> r == DomainDeletion::Allowed,
        apis_attached != 0 ==> r == (DomainDeletion::Refused { apis: apis_attached }),
{
    if apis_attached != 0 {
        DomainDeletion::Refused { apis: apis_attached }
    } else {
        DomainDeletion::Allowed
    }
}

/// The domains that the specs serve are exactly the subdomains whose
/// endpoints are counted.
pub proof fn law_served_domains_are_counted(specs: Seq<SpecItem>, domains: Seq<String>, per_subdomain: Seq<(String, usize)>)
    requires
        forall|d: Seq<char>| (exists|i: int| 0 <= i < domains.len() && (#[trigger] domains[i])@ == d)
            <==> spec_domains(specs).contains(d),
        is_tally_of(per_subdomain, subdomain_entries(specs)),
    ensures
        forall|d: Seq<char>| #[trigger] listed(domains, d) <==> has_key(entries_view(per_subdomain), d),
{
    assert forall|d: Seq<char>| #[trigger] listed(domains, d) <==> has_key(entries_view(per_subdomain), d) by {
        if listed(domains, d) {
            let i = choose|i: int| 0 <= i < domains.len() && (#[trigger] domains[i])@ == d;
            assert(spec_domains(specs).contains(d));
            let k = choose|k: int| 0 <= k < spec_domains(specs).len() && spec_domains(specs)[k] == d;
            assert(subdomain_entries(specs)[k].0 == d);
            assert(has_key(subdomain_entries(specs), d));
        }
        if has_key(entries_view(per_subdomain), d) {
            assert(has_key(subdomain_entries(specs), d));
            let k = choose|k: int| 0 <= k < subdomain_entries(specs).len() && (#[trigger] subdomain_entries(specs)[k]).0 == d;
            assert(spec_domains(specs)[k] == d);
            assert(spec_domains(specs).contains(d));
            let i = choose|i: int| 0 <= i < domains.len() && (#[trigger] domains[i])@ == d;
            assert(listed(domains, d));
        }
    }
}
} // verus!
