//! The first catalog reader, on OpenAPI files kept in a git repository:
//! the audience and domain it reads from a specification.
use vstd::prelude::*;
use vstd::utf8::*;
use crate::app::dao::catalog::handlers::implem::opanapi::{OpenApiDoc, v3_domain, parse_openapi, openapi_document};
use vstd::string::*;
use crate::app::dao::catalog::spec::{relative_path_defined, relative_path_bytes};
use crate::pattern::{regex_group, regex_capture};
use crate::tally::{tally, is_tally_of, totals_fit, entries_view, lemma_entries_view_push};
use crate::seqs::lemma_prefix_push;

verus! {

/// An OpenAPI specification of the repository.
#[derive(Debug, Clone)]
pub struct SpecItem {
    pub path: String,
    pub id: String,
    pub api_spec: OpenApiDoc,
    pub audience: String,
    pub domain: String,
}

/// The pattern of the line that gives a specification's audience.
pub open spec fn audience_pattern() -> Seq<char> {
    "(x-audience)(\\s*:)(.+)"@
}

/// The audience of a specification: what follows `x-audience:` on the
/// first line that declares one (the third group of the pattern).
pub fn get_audience_from_spec(spec_content: &str) -> (r: Option<String>)
    ensures
        match r {
            Some(a) => regex_group(audience_pattern(), spec_content@, 3) == Some(a@),
            None => regex_group(audience_pattern(), spec_content@, 3) is None,
        },
{
    regex_capture("(x-audience)(\\s*:)(.+)", spec_content, 3)
}

/// The domain of a specification: the part of its first server URL after
/// the scheme and host, or a notice when it declares no server.
pub fn get_domain_from_spec(spec: &OpenApiDoc) -> (r: String)
    ensures
        r@ == v3_domain(*spec),
{
    if spec.servers.len() == 0 {
        "NA - servers attribute not specified".to_owned()
    } else {
        let url = &spec.servers[0];
        match regex_capture("(http[s]?://[a-z]*)(.*)", url.as_str(), 2) {
            Some(rest) => rest,
            None => url.clone(),
        }
    }
}

/// The audience read from `source`, or "N/A" when it declares none.
pub open spec fn audience_or_na(source: Seq<char>) -> Seq<char> {
    match regex_group(audience_pattern(), source, 3) {
        Some(a) => a,
        None => "N/A"@,
    }
}

/// The specification stored in a blob of the repository: `content` parsed
/// as an OpenAPI document (`None` when it is not one), with the audience
/// read from `audience_source` and the domain read from the document.
pub fn spec_from_blob(path: &str, id: String, content: &str, audience_source: &str) -> (r: Option<SpecItem>)
    ensures
        r is Some <==> openapi_document(content@) is Some,
        r matches Some(spec) ==> {
            &&& spec.path@ == path@
            &&& spec.id == id
            &&& spec.api_spec == openapi_document(content@).unwrap()
            &&& spec.audience@ == audience_or_na(audience_source@)
            &&& spec.domain@ == v3_domain(spec.api_spec)
        },
{
    match parse_openapi(content) {
        Some(doc) => {
            let audience = match get_audience_from_spec(audience_source) {
                Some(a) => a,
                None => {
                    proof {
                        reveal_strlit("N/A");
                    }
                    "N/A".to_owned()
                },
            };
            let domain = get_domain_from_spec(&doc);
            Some(SpecItem { path: path.to_owned(), id, api_spec: doc, audience, domain })
        },
        None => None,
    }
}

/// Each specification's domain with the number of its paths (references
/// included).
pub open spec fn domain_entries(specs: Seq<SpecItem>) -> Seq<(Seq<char>, nat)> {
    specs.map_values(|s: SpecItem| (v3_domain(s.api_spec), s.api_spec.paths@.len()))
}

/// The number of paths per domain over several specifications, domains in
/// order of first appearance.
pub fn get_endpoints_num_per_subdomain(all_specs: &Vec<SpecItem>) -> (r: Vec<(String, usize)>)
    requires
        totals_fit(domain_entries(all_specs@)),
    ensures
        is_tally_of(r@, domain_entries(all_specs@)),
{
    let mut items: Vec<(String, usize)> = Vec::new();
    let mut i: usize = 0;
    while i < all_specs.len()
        invariant
            i <= all_specs@.len(),
            entries_view(items@) == domain_entries(all_specs@).subrange(0, i as int),
        decreases all_specs@.len() - i,
    {
        let base_url = get_domain_from_spec(&all_specs[i].api_spec);
        let num = all_specs[i].api_spec.paths.len();
        let ghost prev = items@;
        let entry = (base_url, num);
        items.push(entry);
        proof {
            lemma_entries_view_push(prev, entry);
            lemma_prefix_push(domain_entries(all_specs@), i as int);
        }
        i = i + 1;
    }
    proof {
        assert(domain_entries(all_specs@).subrange(0, all_specs@.len() as int) =~= domain_entries(all_specs@));
    }
    match tally(&items) {
        Some(t) => t,
        None => {
            proof {
                assert(false);
            }
            Vec::new()
        },
    }
}

/// The path of a specification relative to the catalog directory.
pub fn get_spec_short_path(catalog_dir_srt: String, spec: &SpecItem) -> (r: &str)
    requires
        relative_path_defined(spec.path@, catalog_dir_srt@),
    ensures
        r@ == decode_utf8(relative_path_bytes(spec.path@, catalog_dir_srt@)),
{
    let n = catalog_dir_srt.as_str().as_bytes().len();
    let (_, short_path) = spec.path.as_str().split_at(n);
    proof {
        encode_utf8_decode_utf8(short_path@);
    }
    short_path
}

} // verus!
