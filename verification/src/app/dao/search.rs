//! The full-text index of the specifications: one document per path of
//! each specification, and the documents that a search finds.
use vstd::prelude::*;
use vstd::string::*;
use crate::app::dao::catalog::spec::SpecItem;
use crate::app::dao::catalog::paths_listed_total;
use crate::app::dao::catalog::handlers::{SpecHandler, Path, Method, MethodView, PathView, paths_view};

verus! {

/// The fields of one indexed document: one path of one specification.
#[derive(Debug, Clone)]
pub struct IndexDocument {
    pub audience: String,
    pub domain: String,
    pub systems: String,
    pub layer: String,
    pub path: String,
    pub operations: String,
    pub summary: String,
    pub description: String,
    pub catalog_id: String,
    pub spec_path: String,
    pub version: String,
}

/// The plain content of an indexed document.
pub struct IndexDocumentView {
    pub audience: Seq<char>,
    pub domain: Seq<char>,
    pub systems: Seq<char>,
    pub layer: Seq<char>,
    pub path: Seq<char>,
    pub operations: Seq<char>,
    pub summary: Seq<char>,
    pub description: Seq<char>,
    pub catalog_id: Seq<char>,
    pub spec_path: Seq<char>,
    pub version: Seq<char>,
}

impl View for IndexDocument {
    type V = IndexDocumentView;

    open spec fn view(&self) -> IndexDocumentView {
        IndexDocumentView {
            audience: self.audience@,
            domain: self.domain@,
            systems: self.systems@,
            layer: self.layer@,
            path: self.path@,
            operations: self.operations@,
            summary: self.summary@,
            description: self.description@,
            catalog_id: self.catalog_id@,
            spec_path: self.spec_path@,
            version: self.version@,
        }
    }
}

/// A document that a search found: its stored fields.
#[derive(Debug, Clone)]
pub struct SearchResult {
    pub audience: [String; 1],
    pub domain: [String; 1],
    pub systems: [String; 1],
    pub layer: [String; 1],
    pub path: [String; 1],
    pub operations: [String; 1],
    pub catalog_id: [String; 1],
    pub spec_path: [String; 1],
    pub version: [String; 1],
}

/// The texts joined with a space between two of them, as `[String]::join(" ")`.
pub open spec fn joined(texts: Seq<Seq<char>>) -> Seq<char>
    decreases texts.len(),
{
    if texts.len() == 0 {
        Seq::empty()
    } else if texts.len() == 1 {
        texts[0]
    } else {
        joined(texts.drop_last()) + seq![' '] + texts.last()
    }
}

/// Which text of an operation a field of the index collects.
pub enum OperationField {
    Method,
    Summary,
    Description,
}

/// The chosen text of an operation.
pub open spec fn operation_text(m: MethodView, field: OperationField) -> Seq<char> {
    match field {
        OperationField::Method => m.method,
        OperationField::Summary => m.summary,
        OperationField::Description => m.description,
    }
}

/// The chosen text of each operation, each followed by a space.
pub open spec fn operations_text(methods: Seq<MethodView>, field: OperationField) -> Seq<char>
    decreases methods.len(),
{
    if methods.len() == 0 {
        Seq::empty()
    } else {
        operations_text(methods.drop_last(), field) + operation_text(methods.last(), field) + seq![' ']
    }
}

/// The document that indexes path `p` of `spec`.
pub open spec fn document_of(spec: SpecItem, p: PathView) -> IndexDocumentView {
    IndexDocumentView {
        audience: spec.handler.audience_text(),
        domain: spec.handler.domain_text(),
        systems: joined(spec.handler.systems_list()),
        layer: spec.handler.layer_text(),
        path: p.path,
        operations: operations_text(p.methods, OperationField::Method),
        summary: operations_text(p.methods, OperationField::Summary),
        description: operations_text(p.methods, OperationField::Description),
        catalog_id: spec.catalog_id@,
        spec_path: spec.path@,
        version: spec.handler.version_text(),
    }
}

/// The documents of the specs: for each spec in order, one per path in order.
pub open spec fn documents_of(specs: Seq<SpecItem>) -> Seq<IndexDocumentView>
    decreases specs.len(),
{
    if specs.len() == 0 {
        Seq::empty()
    } else {
        documents_of(specs.drop_last())
            + specs.last().handler.paths_list().map_values(|p: PathView| document_of(specs.last(), p))
    }
}

/// Every spec can give what its documents hold.
pub open spec fn specs_indexable(specs: Seq<SpecItem>) -> bool {
    forall|i: int| 0 <= i < specs.len() ==> {
        &&& (#[trigger] specs[i]).handler.pre_get_audience()
        &&& specs[i].handler.pre_get_domain()
        &&& specs[i].handler.pre_get_systems()
        &&& specs[i].handler.pre_get_layer()
        &&& specs[i].handler.pre_get_paths()
        &&& specs[i].handler.pre_get_version()
    }
}

/// The texts joined with a space between two of them.
fn join_with_space(texts: &Vec<String>) -> (r: String)
    ensures
        r@ == joined(texts@.map_values(|s: String| s@)),
{
    let ghost tv = texts@.map_values(|s: String| s@);
    let mut out = String::new();
    let mut i: usize = 0;
    while i < texts.len()
        invariant
            i <= texts@.len(),
            tv == texts@.map_values(|s: String| s@),
            out@ == joined(tv.subrange(0, i as int)),
        decreases texts@.len() - i,
    {
        let ghost next = tv.subrange(0, i + 1);
        proof {
            assert(next.drop_last() =~= tv.subrange(0, i as int));
            assert(next.last() == texts@[i as int]@);
            reveal_strlit(" ");
        }
        if i > 0 {
            out.append(" ");
        }
        out.append(texts[i].as_str());
        proof {
            if i == 0 {
                assert(next.len() == 1);
                assert(out@ =~= next[0]);
            } else {
                assert(out@ =~= joined(next.drop_last()) + seq![' '] + next.last());
            }
        }
        i = i + 1;
    }
    proof {
        assert(tv.subrange(0, texts@.len() as int) =~= tv);
    }
    out
}

/// The chosen text of each operation, each followed by a space.
fn collect_operations(methods: &Vec<Method>, field: OperationField) -> (r: String)
    ensures
        r@ == operations_text(methods@.map_values(|m: Method| m@), field),
{
    let ghost mv = methods@.map_values(|m: Method| m@);
    let mut out = String::new();
    let mut i: usize = 0;
    while i < methods.len()
        invariant
            i <= methods@.len(),
            mv == methods@.map_values(|m: Method| m@),
            out@ == operations_text(mv.subrange(0, i as int), field),
        decreases methods@.len() - i,
    {
        let ghost next = mv.subrange(0, i + 1);
        proof {
            assert(next.drop_last() =~= mv.subrange(0, i as int));
            assert(next.last() == methods@[i as int]@);
            reveal_strlit(" ");
        }
        let m = &methods[i];
        match field {
            OperationField::Method => out.append(m.method.as_str()),
            OperationField::Summary => out.append(m.summary.as_str()),
            OperationField::Description => out.append(m.description.as_str()),
        }
        out.append(" ");
        i = i + 1;
    }
    proof {
        assert(mv.subrange(0, methods@.len() as int) =~= mv);
    }
    out
}

/// The documents that index the specs: for each spec in order, one per
/// path in order, with the spec's audience, domain, systems (joined with
/// spaces), layer, catalog, path and version, and the path's operations,
/// summaries and descriptions (each followed by a space).
pub fn index_documents(specs: &Vec<SpecItem>) -> (r: Vec<IndexDocument>)
    requires
        specs_indexable(specs@),
    ensures
        r@.map_values(|d: IndexDocument| d@) == documents_of(specs@),
{
    let mut docs: Vec<IndexDocument> = Vec::new();
    let mut k: usize = 0;
    while k < specs.len()
        invariant
            k <= specs@.len(),
            specs_indexable(specs@),
            docs@.map_values(|d: IndexDocument| d@) == documents_of(specs@.subrange(0, k as int)),
        decreases specs@.len() - k,
    {
        let ghost next = specs@.subrange(0, k + 1);
        proof {
            assert(next.drop_last() =~= specs@.subrange(0, k as int));
            assert(next.last() == specs@[k as int]);
        }
        let spec = &specs[k];
        let systems = spec.get_systems();
        let systems_as_text = join_with_space(&systems);
        let audience = spec.get_audience();
        let domain = spec.get_domain();
        let layer = spec.get_layer();
        let version = spec.get_version();
        let paths = spec.get_paths();
        let ghost pv = paths_view(paths@);
        let ghost before = docs@.map_values(|d: IndexDocument| d@);
        let mut j: usize = 0;
        while j < paths.len()
            invariant
                j <= paths@.len(),
                pv == paths_view(paths@),
                pv == spec.handler.paths_list(),
                audience@ == spec.handler.audience_text(),
                domain@ == spec.handler.domain_text(),
                systems_as_text@ == joined(spec.handler.systems_list()),
                layer@ == spec.handler.layer_text(),
                version@ == spec.handler.version_text(),
                docs@.map_values(|d: IndexDocument| d@)
                    == before + pv.subrange(0, j as int).map_values(|p: PathView| document_of(*spec, p)),
            decreases paths@.len() - j,
        {
            let path_item = &paths[j];
            let doc = IndexDocument {
                audience: audience.clone(),
                domain: domain.clone(),
                systems: systems_as_text.clone(),
                layer: layer.clone(),
                path: path_item.path.clone(),
                operations: collect_operations(&path_item.methods, OperationField::Method),
                summary: collect_operations(&path_item.methods, OperationField::Summary),
                description: collect_operations(&path_item.methods, OperationField::Description),
                catalog_id: spec.catalog_id.clone(),
                spec_path: spec.path.clone(),
                version: version.clone(),
            };
            let ghost old_docs = docs@;
            docs.push(doc);
            proof {
                assert(pv[j as int] == path_item@);
                assert(doc@ == document_of(*spec, pv[j as int]));
                assert(docs@.map_values(|d: IndexDocument| d@) =~= old_docs.map_values(|d: IndexDocument| d@).push(doc@));
                assert(pv.subrange(0, j + 1).map_values(|p: PathView| document_of(*spec, p))
                    =~= pv.subrange(0, j as int).map_values(|p: PathView| document_of(*spec, p)).push(document_of(*spec, pv[j as int])));
            }
            j = j + 1;
        }
        proof {
            assert(pv.subrange(0, paths@.len() as int) =~= pv);
        }
        k = k + 1;
    }
    proof {
        assert(specs@.subrange(0, specs@.len() as int) =~= specs@);
    }
    docs
}


/// The index holds one document per path of each spec.
pub proof fn law_one_document_per_path(specs: Seq<SpecItem>)
    ensures
        documents_of(specs).len() == paths_listed_total(specs),
    decreases specs.len(),
{
    if specs.len() > 0 {
        law_one_document_per_path(specs.drop_last());
    }
}
} // verus!
