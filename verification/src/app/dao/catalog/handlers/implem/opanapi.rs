//! OpenAPI v3 documents, read through the `openapiv3` crate.
use vstd::prelude::*;
use crate::text::{lowercase_text, to_lowercase};
use crate::pattern::{regex_group, regex_capture};
use crate::seqs::{lemma_map_push, lemma_prefix_push, lemma_prefix_full};
use crate::app::dao::catalog::DEFAULT_SYSTEM_LAYER;
use crate::app::dao::catalog::handlers::{SpecHandler, Method, MethodView, Path, PathView, paths_view};

verus! {

/// An operation of a path item: what the catalog reads of it.
#[derive(Debug, Clone)]
pub struct OperationDoc {
    pub summary: Option<String>,
    pub description: Option<String>,
}

/// A path item: its operations by HTTP method.
#[derive(Debug, Clone)]
pub struct PathItemDoc {
    pub get: Option<OperationDoc>,
    pub put: Option<OperationDoc>,
    pub post: Option<OperationDoc>,
    pub delete: Option<OperationDoc>,
    pub options: Option<OperationDoc>,
    pub head: Option<OperationDoc>,
    pub patch: Option<OperationDoc>,
}

/// An extension value (`x-...`): its text when it is a string, and its
/// elements' texts when it is an array.
#[derive(Debug, Clone)]
pub struct ExtensionValue {
    pub text: Option<String>,
    pub items: Option<Vec<Option<String>>>,
}

/// An OpenAPI document: what the catalog reads of it. Paths keep document
/// order; a path that is a reference has no item.
#[derive(Debug, Clone)]
pub struct OpenApiDoc {
    pub title: String,
    pub version: String,
    pub description: Option<String>,
    pub info_extensions: Vec<(String, ExtensionValue)>,
    pub extensions: Vec<(String, ExtensionValue)>,
    pub servers: Vec<String>,
    pub paths: Vec<(String, Option<PathItemDoc>)>,
}

#[verifier::external_type_specification]
#[verifier::external_body]
pub struct ExOpenApi(openapiv3::OpenAPI);

#[verifier::external_type_specification]
#[verifier::external_body]
pub struct ExPathItem(openapiv3::PathItem);

#[verifier::external_type_specification]
#[verifier::external_body]
pub struct ExOperation(openapiv3::Operation);

#[verifier::external_type_specification]
#[verifier::external_body]
pub struct ExJsonValue(serde_json::Value);

/// What `serde_yaml::from_str::<openapiv3::OpenAPI>` yields for a text, as an
/// `OpenApiDoc` (`None` when the text is not an OpenAPI document).
pub uninterp spec fn openapi_document(text: Seq<char>) -> Option<OpenApiDoc>;

#[verifier::external_body]
fn operation_from(o: &openapiv3::Operation) -> OperationDoc {
    OperationDoc { summary: o.summary.clone(), description: o.description.clone() }
}

#[verifier::external_body]
fn path_item_from(i: &openapiv3::PathItem) -> PathItemDoc {
    PathItemDoc {
        get: i.get.as_ref().map(operation_from),
        put: i.put.as_ref().map(operation_from),
        post: i.post.as_ref().map(operation_from),
        delete: i.delete.as_ref().map(operation_from),
        options: i.options.as_ref().map(operation_from),
        head: i.head.as_ref().map(operation_from),
        patch: i.patch.as_ref().map(operation_from),
    }
}

#[verifier::external_body]
fn extension_from(v: &serde_json::Value) -> ExtensionValue {
    ExtensionValue {
        text: v.as_str().map(String::from),
        items: v.as_array().map(|a| a.iter().map(|x| x.as_str().map(String::from)).collect()),
    }
}

#[verifier::external_body]
fn openapi_doc_from(api: &openapiv3::OpenAPI) -> OpenApiDoc {
    OpenApiDoc {
        title: api.info.title.clone(),
        version: api.info.version.clone(),
        description: api.info.description.clone(),
        info_extensions: api.info.extensions.iter().map(|(k, v)| (k.clone(), extension_from(v))).collect(),
        extensions: api.extensions.iter().map(|(k, v)| (k.clone(), extension_from(v))).collect(),
        servers: api.servers.iter().map(|s| s.url.clone()).collect(),
        paths: api.paths.paths.iter().map(|(k, v)| (k.clone(), v.as_item().map(path_item_from))).collect(),
    }
}

/// `serde_yaml::from_str::<openapiv3::OpenAPI>`: parses an OpenAPI document.
#[verifier::external_body]
pub(crate) fn parse_openapi(text: &str) -> (r: Option<OpenApiDoc>)
    ensures
        r == openapi_document(text@),
{
    match serde_yaml::from_str::<openapiv3::OpenAPI>(text) {
        Ok(api) => Some(openapi_doc_from(&api)),
        Err(_) => None,
    }
}

/// The value of the first extension named `key`.
pub open spec fn extension_lookup(entries: Seq<(String, ExtensionValue)>, key: Seq<char>) -> Option<ExtensionValue>
    decreases entries.len(),
{
    if entries.len() == 0 {
        None
    } else if entries[0].0@ == key {
        Some(entries[0].1)
    } else {
        extension_lookup(entries.drop_first(), key)
    }
}

/// The extension is absent or is a string.
pub open spec fn extension_is_text(v: Option<ExtensionValue>) -> bool {
    match v {
        Some(e) => e.text is Some,
        None => true,
    }
}

/// The text of an extension, or `default` when it is absent.
pub open spec fn extension_text_or(v: Option<ExtensionValue>, default: Seq<char>) -> Seq<char> {
    match v {
        Some(e) => e.text.unwrap()@,
        None => default,
    }
}

/// The extension is absent or is an array of strings.
pub open spec fn extension_is_text_list(v: Option<ExtensionValue>) -> bool {
    match v {
        Some(e) => match e.items {
            Some(items) => forall|i: int| 0 <= i < items@.len() ==> (#[trigger] items@[i]) is Some,
            None => false,
        },
        None => true,
    }
}

/// The text of an optional value, or `N/A`.
pub open spec fn text_or_na(t: Option<String>) -> Seq<char> {
    match t {
        Some(s) => s@,
        None => "N/A"@,
    }
}

/// The method read from one operation (when present).
pub open spec fn operation_methods(name: Seq<char>, op: Option<OperationDoc>) -> Seq<MethodView> {
    match op {
        Some(o) => seq![MethodView { method: name, description: text_or_na(o.description), summary: text_or_na(o.summary) }],
        None => seq![],
    }
}

/// The methods of a path item, in the order GET, POST, PUT, DELETE, OPTIONS, HEAD, PATCH.
pub open spec fn item_methods(item: PathItemDoc) -> Seq<MethodView> {
    operation_methods("GET"@, item.get) + operation_methods("POST"@, item.post) + operation_methods("PUT"@, item.put)
        + operation_methods("DELETE"@, item.delete) + operation_methods("OPTIONS"@, item.options)
        + operation_methods("HEAD"@, item.head) + operation_methods("PATCH"@, item.patch)
}

/// The paths of a document: one per path that is an item, in order.
pub open spec fn v3_paths(entries: Seq<(String, Option<PathItemDoc>)>) -> Seq<PathView>
    decreases entries.len(),
{
    if entries.len() == 0 {
        seq![]
    } else {
        let rest = v3_paths(entries.drop_last());
        match entries.last().1 {
            Some(item) => rest.push(PathView { path: entries.last().0@, methods: item_methods(item) }),
            None => rest,
        }
    }
}

/// The pattern that splits a server URL into its base and the rest.
pub open spec fn server_url_pattern() -> Seq<char> {
    "(http[s]?://[a-z]*)(.*)"@
}

/// The domain of a document: the part of the first server URL after its
/// scheme and host, or the whole URL when the pattern does not match.
pub open spec fn v3_domain(doc: OpenApiDoc) -> Seq<char> {
    if doc.servers@.len() == 0 {
        "NA - servers attribute not specified"@
    } else {
        match regex_group(server_url_pattern(), doc.servers@[0]@, 2) {
            Some(rest) => rest,
            None => doc.servers@[0]@,
        }
    }
}

/// The systems of a document: the lower-cased texts of `x-systems`, or the
/// default system alone.
pub open spec fn v3_systems(doc: OpenApiDoc) -> Seq<Seq<char>> {
    match extension_lookup(doc.extensions@, "x-systems"@) {
        Some(e) => e.items.unwrap()@.map_values(|t: Option<String>| lowercase_text(t.unwrap()@)),
        None => seq![DEFAULT_SYSTEM_LAYER@],
    }
}

/// Looks an extension up by name.
pub fn find_extension<'a>(entries: &'a Vec<(String, ExtensionValue)>, key: &str) -> (r: Option<&'a ExtensionValue>)
    ensures
        match r {
            Some(v) => extension_lookup(entries@, key@) == Some(*v),
            None => extension_lookup(entries@, key@) is None,
        },
{
    let mut i: usize = 0;
    proof {
        assert(entries@.skip(0) =~= entries@);
    }
    while i < entries.len()
        invariant
            i <= entries@.len(),
            extension_lookup(entries@, key@) == extension_lookup(entries@.skip(i as int), key@),
        decreases entries@.len() - i,
    {
        proof {
            assert(entries@.skip(i as int).drop_first() =~= entries@.skip(i + 1));
            assert(entries@.skip(i as int)[0] == entries@[i as int]);
        }
        if crate::text::str_eq(entries[i].0.as_str(), key) {
            return Some(&entries[i].1);
        }
        i = i + 1;
    }
    None
}

/// The text of an extension that is absent or a string, or `default`.
fn extension_text(v: Option<&ExtensionValue>, default: &str) -> (r: String)
    requires
        extension_is_text(
            match v {
                Some(e) => Some(*e),
                None => None,
            },
        ),
    ensures
        r@ == extension_text_or(
            match v {
                Some(e) => Some(*e),
                None => None,
            },
            default@,
        ),
{
    match v {
        Some(e) => match &e.text {
            Some(t) => t.clone(),
            None => {
                proof {
                    assert(false);
                }
                String::new()
            },
        },
        None => default.to_owned(),
    }
}

/// Appends the method of one operation, when present.
fn push_operation(out: &mut Vec<Method>, name: &str, op: &Option<OperationDoc>)
    ensures
        final(out)@.map_values(|m: Method| m@) == old(out)@.map_values(|m: Method| m@) + operation_methods(name@, *op),
{
    let ghost prev = out@;
    match op {
        Some(o) => {
            let description = match &o.description {
                Some(d) => d.clone(),
                None => "N/A".to_owned(),
            };
            let summary = match &o.summary {
                Some(s) => s.clone(),
                None => "N/A".to_owned(),
            };
            let m = Method { method: name.to_owned(), description, summary };
            out.push(m);
            proof {
                assert(out@.map_values(|m: Method| m@) =~= prev.map_values(|m: Method| m@) + operation_methods(name@, *op));
            }
        },
        None => {
            proof {
                assert(out@.map_values(|m: Method| m@) =~= prev.map_values(|m: Method| m@) + operation_methods(name@, *op));
            }
        },
    }
}

/// The methods of a path item.
pub fn item_methods_of(item: &PathItemDoc) -> (r: Vec<Method>)
    ensures
        r@.map_values(|m: Method| m@) == item_methods(*item),
{
    let mut all_methods: Vec<Method> = Vec::new();
    proof {
        assert(all_methods@.map_values(|m: Method| m@) =~= seq![]);
    }
    push_operation(&mut all_methods, "GET", &item.get);
    push_operation(&mut all_methods, "POST", &item.post);
    push_operation(&mut all_methods, "PUT", &item.put);
    push_operation(&mut all_methods, "DELETE", &item.delete);
    push_operation(&mut all_methods, "OPTIONS", &item.options);
    push_operation(&mut all_methods, "HEAD", &item.head);
    push_operation(&mut all_methods, "PATCH", &item.patch);
    proof {
        assert(all_methods@.map_values(|m: Method| m@) =~= item_methods(*item));
    }
    all_methods
}

/// An OpenAPI v3 document.
#[derive(Debug, Clone)]
pub struct V3 {
    pub spec: OpenApiDoc,
}

impl V3 {
    /// Parses the document; fails with "Unable to parse content" when the
    /// text is not an OpenAPI document.
    pub fn new(val: &str) -> (r: Result<Self, String>)
        ensures
            match openapi_document(val@) {
                Some(doc) => r matches Ok(v) && v.spec == doc,
                None => r matches Err(e) && e@ == "Unable to parse content"@,
            },
    {
        match parse_openapi(val) {
            Some(doc) => Ok(V3 { spec: doc }),
            None => Err("Unable to parse content".to_owned()),
        }
    }
}

impl SpecHandler for V3 {
    open spec fn pre_get_version(&self) -> bool {
        true
    }

    open spec fn pre_get_title(&self) -> bool {
        true
    }

    open spec fn pre_get_description(&self) -> bool {
        true
    }

    open spec fn pre_get_paths_len(&self) -> bool {
        true
    }

    open spec fn pre_get_paths(&self) -> bool {
        true
    }

    open spec fn pre_get_audience(&self) -> bool {
        extension_is_text(extension_lookup(self.spec.info_extensions@, "x-audience"@))
    }

    open spec fn pre_get_api_id(&self) -> bool {
        extension_is_text(extension_lookup(self.spec.info_extensions@, "x-api-id"@))
    }

    open spec fn pre_get_layer(&self) -> bool {
        extension_is_text(extension_lookup(self.spec.extensions@, "x-layer"@))
    }

    open spec fn pre_get_systems(&self) -> bool {
        extension_is_text_list(extension_lookup(self.spec.extensions@, "x-systems"@))
    }

    open spec fn pre_get_domain(&self) -> bool {
        true
    }

    fn get_version(&self) -> (r: String)
        ensures
            r@ == self.spec.version@,
    {
        self.spec.version.clone()
    }

    fn get_title(&self) -> (r: String)
        ensures
            r@ == self.spec.title@,
    {
        self.spec.title.clone()
    }

    fn get_description(&self) -> (r: String)
        ensures
            r@ == match self.spec.description {
                Some(d) => d@,
                None => ""@,
            },
    {
        match &self.spec.description {
            Some(d) => d.clone(),
            None => "".to_owned(),
        }
    }

    fn get_paths_len(&self) -> (r: usize)
        ensures
            r == self.spec.paths@.len(),
    {
        self.spec.paths.len()
    }

    fn get_paths(&self) -> (r: Vec<Path>)
        ensures
            paths_view(r@) == v3_paths(self.spec.paths@),
    {
        let paths = &self.spec.paths;
        let mut all_paths: Vec<Path> = Vec::new();
        let mut i: usize = 0;
        while i < paths.len()
            invariant
                i <= paths@.len(),
                paths_view(all_paths@) == v3_paths(paths@.subrange(0, i as int)),
            decreases paths@.len() - i,
        {
            proof {
                assert(paths@.subrange(0, i + 1).drop_last() =~= paths@.subrange(0, i as int));
                assert(paths@.subrange(0, i + 1).last() == paths@[i as int]);
            }
            match &paths[i].1 {
                Some(item) => {
                    let ghost prev = all_paths@;
                    let p = Path { path: paths[i].0.clone(), methods: item_methods_of(item) };
                    all_paths.push(p);
                    proof {
                        assert(paths_view(all_paths@) =~= paths_view(prev).push(p@));
                    }
                },
                None => {},
            }
            i = i + 1;
        }
        proof {
            lemma_prefix_full(paths@);
        }
        all_paths
    }

    fn get_audience(&self) -> (r: String)
        ensures
            r@ == extension_text_or(extension_lookup(self.spec.info_extensions@, "x-audience"@), DEFAULT_SYSTEM_LAYER@),
    {
        extension_text(find_extension(&self.spec.info_extensions, "x-audience"), DEFAULT_SYSTEM_LAYER)
    }

    fn get_api_id(&self) -> (r: String)
        ensures
            r@ == extension_text_or(extension_lookup(self.spec.info_extensions@, "x-api-id"@), "0"@),
    {
        extension_text(find_extension(&self.spec.info_extensions, "x-api-id"), "0")
    }

    fn get_layer(&self) -> (r: String)
        ensures
            r@ == lowercase_text(extension_text_or(extension_lookup(self.spec.extensions@, "x-layer"@), DEFAULT_SYSTEM_LAYER@)),
    {
        let layer = extension_text(find_extension(&self.spec.extensions, "x-layer"), DEFAULT_SYSTEM_LAYER);
        to_lowercase(layer.as_str())
    }

    fn get_systems(&self) -> (r: Vec<String>)
        ensures
            r@.map_values(|s: String| s@) == v3_systems(self.spec),
    {
        match find_extension(&self.spec.extensions, "x-systems") {
            Some(e) => match &e.items {
                Some(items) => {
                    let mut out: Vec<String> = Vec::new();
                    let mut i: usize = 0;
                    while i < items.len()
                        invariant
                            i <= items@.len(),
                            forall|j: int| 0 <= j < items@.len() ==> (#[trigger] items@[j]) is Some,
                            out@.map_values(|s: String| s@) == items@.subrange(0, i as int).map_values(
                                |t: Option<String>| lowercase_text(t.unwrap()@),
                            ),
                        decreases items@.len() - i,
                    {
                        let s = match &items[i] {
                            Some(t) => to_lowercase(t.as_str()),
                            None => {
                                proof {
                                    assert(items@[i as int] is Some);
                                }
                                String::new()
                            },
                        };
                        let ghost prev = out@;
                        out.push(s);
                        proof {
                            lemma_map_push(prev, s, |s: String| s@);
                            lemma_prefix_push(items@, i as int);
                            lemma_map_push(
                                items@.subrange(0, i as int),
                                items@[i as int],
                                |t: Option<String>| lowercase_text(t.unwrap()@),
                            );
                        }
                        i = i + 1;
                    }
                    proof {
                        lemma_prefix_full(items@);
                    }
                    out
                },
                None => {
                    proof {
                        assert(false);
                    }
                    Vec::new()
                },
            },
            None => {
                let mut out: Vec<String> = Vec::new();
                out.push(DEFAULT_SYSTEM_LAYER.to_owned());
                proof {
                    assert(out@.map_values(|s: String| s@) =~= seq![DEFAULT_SYSTEM_LAYER@]);
                }
                out
            },
        }
    }

    fn get_domain(&self) -> (r: String)
        ensures
            r@ == v3_domain(self.spec),
    {
        if self.spec.servers.len() == 0 {
            "NA - servers attribute not specified".to_owned()
        } else {
            let url = &self.spec.servers[0];
            match regex_capture("(http[s]?://[a-z]*)(.*)", url.as_str(), 2) {
                Some(rest) => rest,
                None => url.clone(),
            }
        }
    }
}


/// Every reading of the document is defined: its audience, API id and
/// layer extensions are texts when present, and its systems extension a
/// list of texts when present.
pub open spec fn v3_readable(doc: OpenApiDoc) -> bool {
    &&& extension_is_text(extension_lookup(doc.info_extensions@, "x-audience"@))
    &&& extension_is_text(extension_lookup(doc.info_extensions@, "x-api-id"@))
    &&& extension_is_text(extension_lookup(doc.extensions@, "x-layer"@))
    &&& extension_is_text_list(extension_lookup(doc.extensions@, "x-systems"@))
}

fn check_extension_text(v: Option<&ExtensionValue>) -> (r: bool)
    ensures
        r == extension_is_text(match v { Some(e) => Some(*e), None => None }),
{
    match v {
        Some(e) => e.text.is_some(),
        None => true,
    }
}

fn check_extension_text_list(v: Option<&ExtensionValue>) -> (r: bool)
    ensures
        r == extension_is_text_list(match v { Some(e) => Some(*e), None => None }),
{
    match v {
        Some(e) => match &e.items {
            Some(items) => {
                let mut i: usize = 0;
                while i < items.len()
                    invariant
                        i <= items@.len(),
                        e.items == Some(*items),
                        v == Some(e),
                        forall|j: int| 0 <= j < i ==> (#[trigger] items@[j]) is Some,
                    decreases items@.len() - i,
                {
                    match &items[i] {
                        Some(_) => {},
                        None => {
                            proof {
                                assert(!(items@[i as int] is Some));
                            }
                            return false;
                        },
                    }
                    i = i + 1;
                }
                true
            },
            None => false,
        },
        None => true,
    }
}

/// `v3_readable`, decided.
pub fn check_v3_readable(doc: &OpenApiDoc) -> (r: bool)
    ensures
        r == v3_readable(*doc),
{
    check_extension_text(find_extension(&doc.info_extensions, "x-audience"))
        && check_extension_text(find_extension(&doc.info_extensions, "x-api-id"))
        && check_extension_text(find_extension(&doc.extensions, "x-layer"))
        && check_extension_text_list(find_extension(&doc.extensions, "x-systems"))
}

/// The number of operations that a path item holds.
pub open spec fn operations_held(item: PathItemDoc) -> nat {
    (if item.get is Some { 1nat } else { 0nat }) + (if item.put is Some { 1nat } else { 0nat })
        + (if item.post is Some { 1nat } else { 0nat }) + (if item.delete is Some { 1nat } else { 0nat })
        + (if item.options is Some { 1nat } else { 0nat }) + (if item.head is Some { 1nat } else { 0nat })
        + (if item.patch is Some { 1nat } else { 0nat })
}

/// Some method of `methods` is named `name`.
pub open spec fn lists_method(methods: Seq<MethodView>, name: Seq<char>) -> bool {
    exists|k: int| 0 <= k < methods.len() && (#[trigger] methods[k]).method == name
}

proof fn lemma_operation_methods(y: Seq<char>, op: Option<OperationDoc>)
    ensures
        operation_methods(y, op).len() == (if op is Some { 1nat } else { 0nat }),
        forall|name: Seq<char>| #[trigger] lists_method(operation_methods(y, op), name) <==> (op is Some && y == name),
{
    if op is Some {
        assert(operation_methods(y, op)[0].method == y);
    }
}

proof fn lemma_listed_concat(a: Seq<MethodView>, b: Seq<MethodView>)
    ensures
        forall|name: Seq<char>| #[trigger] lists_method(a + b, name) <==> (lists_method(a, name) || lists_method(b, name)),
{
    assert forall|name: Seq<char>| #[trigger] lists_method(a + b, name) <==> (lists_method(a, name) || lists_method(b, name)) by {
        if lists_method(a + b, name) {
            let k = choose|k: int| 0 <= k < (a + b).len() && (#[trigger] (a + b)[k]).method == name;
            if k < a.len() {
                assert(a[k] == (a + b)[k]);
            } else {
                assert(b[k - a.len()] == (a + b)[k]);
            }
        }
        if lists_method(a, name) {
            let k = choose|k: int| 0 <= k < a.len() && (#[trigger] a[k]).method == name;
            assert((a + b)[k] == a[k]);
        }
        if lists_method(b, name) {
            let k = choose|k: int| 0 <= k < b.len() && (#[trigger] b[k]).method == name;
            assert((a + b)[a.len() + k] == b[k]);
        }
    }
}

proof fn lemma_listed_item(item: PathItemDoc, name: Seq<char>)
    ensures
        item_methods(item).len() == operations_held(item),
        lists_method(item_methods(item), name) <==> {
            ||| item.get is Some && "GET"@ == name
            ||| item.post is Some && "POST"@ == name
            ||| item.put is Some && "PUT"@ == name
            ||| item.delete is Some && "DELETE"@ == name
            ||| item.options is Some && "OPTIONS"@ == name
            ||| item.head is Some && "HEAD"@ == name
            ||| item.patch is Some && "PATCH"@ == name
        },
{
    let g = operation_methods("GET"@, item.get);
    let po = operation_methods("POST"@, item.post);
    let pu = operation_methods("PUT"@, item.put);
    let d = operation_methods("DELETE"@, item.delete);
    let o = operation_methods("OPTIONS"@, item.options);
    let h = operation_methods("HEAD"@, item.head);
    let pa = operation_methods("PATCH"@, item.patch);
    lemma_operation_methods("GET"@, item.get);
    lemma_operation_methods("POST"@, item.post);
    lemma_operation_methods("PUT"@, item.put);
    lemma_operation_methods("DELETE"@, item.delete);
    lemma_operation_methods("OPTIONS"@, item.options);
    lemma_operation_methods("HEAD"@, item.head);
    lemma_operation_methods("PATCH"@, item.patch);
    lemma_listed_concat(g, po);
    lemma_listed_concat(g + po, pu);
    lemma_listed_concat(g + po + pu, d);
    lemma_listed_concat(g + po + pu + d, o);
    lemma_listed_concat(g + po + pu + d + o, h);
    lemma_listed_concat(g + po + pu + d + o + h, pa);
    assert(item_methods(item) == g + po + pu + d + o + h + pa);
    assert(lists_method(g, name) <==> item.get is Some && "GET"@ == name);
    assert(lists_method(po, name) <==> item.post is Some && "POST"@ == name);
    assert(lists_method(pu, name) <==> item.put is Some && "PUT"@ == name);
    assert(lists_method(d, name) <==> item.delete is Some && "DELETE"@ == name);
    assert(lists_method(o, name) <==> item.options is Some && "OPTIONS"@ == name);
    assert(lists_method(h, name) <==> item.head is Some && "HEAD"@ == name);
    assert(lists_method(pa, name) <==> item.patch is Some && "PATCH"@ == name);
}

/// The seven HTTP method names are distinct.
proof fn lemma_method_names_distinct()
    ensures
        "GET"@ != "PUT"@, "GET"@ != "POST"@, "GET"@ != "DELETE"@, "GET"@ != "OPTIONS"@, "GET"@ != "HEAD"@, "GET"@ != "PATCH"@,
        "PUT"@ != "POST"@, "PUT"@ != "DELETE"@, "PUT"@ != "OPTIONS"@, "PUT"@ != "HEAD"@, "PUT"@ != "PATCH"@,
        "POST"@ != "DELETE"@, "POST"@ != "OPTIONS"@, "POST"@ != "HEAD"@, "POST"@ != "PATCH"@,
        "DELETE"@ != "OPTIONS"@, "DELETE"@ != "HEAD"@, "DELETE"@ != "PATCH"@,
        "OPTIONS"@ != "HEAD"@, "OPTIONS"@ != "PATCH"@,
        "HEAD"@ != "PATCH"@,
{
    reveal_strlit("GET");
    reveal_strlit("POST");
    reveal_strlit("PUT");
    reveal_strlit("DELETE");
    reveal_strlit("OPTIONS");
    reveal_strlit("HEAD");
    reveal_strlit("PATCH");
    assert("GET"@[0] != "PUT"@[0]);
    assert("POST"@[0] != "HEAD"@[0]);
    assert("GET"@.len() != "POST"@.len());
    assert("GET"@.len() != "DELETE"@.len());
    assert("GET"@.len() != "OPTIONS"@.len());
    assert("GET"@.len() != "HEAD"@.len());
    assert("GET"@.len() != "PATCH"@.len());
    assert("PUT"@.len() != "POST"@.len());
    assert("PUT"@.len() != "DELETE"@.len());
    assert("PUT"@.len() != "OPTIONS"@.len());
    assert("PUT"@.len() != "HEAD"@.len());
    assert("PUT"@.len() != "PATCH"@.len());
    assert("POST"@.len() != "DELETE"@.len());
    assert("POST"@.len() != "OPTIONS"@.len());
    assert("POST"@.len() != "PATCH"@.len());
    assert("DELETE"@.len() != "OPTIONS"@.len());
    assert("DELETE"@.len() != "HEAD"@.len());
    assert("DELETE"@.len() != "PATCH"@.len());
    assert("OPTIONS"@.len() != "HEAD"@.len());
    assert("OPTIONS"@.len() != "PATCH"@.len());
    assert("HEAD"@.len() != "PATCH"@.len());
}

/// Every operation of a path item is listed among its methods, under its
/// HTTP method, and nothing else is: each of GET, PUT, POST, DELETE,
/// OPTIONS, HEAD and PATCH is listed exactly when the item holds that
/// operation, and there are as many methods as operations.
pub proof fn law_every_operation_is_listed(item: PathItemDoc)
    ensures
        item_methods(item).len() == operations_held(item),
        item.get is Some <==> lists_method(item_methods(item), "GET"@),
        item.put is Some <==> lists_method(item_methods(item), "PUT"@),
        item.post is Some <==> lists_method(item_methods(item), "POST"@),
        item.delete is Some <==> lists_method(item_methods(item), "DELETE"@),
        item.options is Some <==> lists_method(item_methods(item), "OPTIONS"@),
        item.head is Some <==> lists_method(item_methods(item), "HEAD"@),
        item.patch is Some <==> lists_method(item_methods(item), "PATCH"@),
{
    lemma_method_names_distinct();
    lemma_listed_item(item, "GET"@);
    lemma_listed_item(item, "PUT"@);
    lemma_listed_item(item, "POST"@);
    lemma_listed_item(item, "DELETE"@);
    lemma_listed_item(item, "OPTIONS"@);
    lemma_listed_item(item, "HEAD"@);
    lemma_listed_item(item, "PATCH"@);
}


/// Each of the seven operations of `item` is listed in `methods` exactly
/// when `item` holds it, and `methods` has one entry per operation held.
pub open spec fn lists_operations_of(methods: Seq<MethodView>, item: PathItemDoc) -> bool {
    &&& methods.len() == operations_held(item)
    &&& (item.get is Some <==> lists_method(methods, "GET"@))
    &&& (item.put is Some <==> lists_method(methods, "PUT"@))
    &&& (item.post is Some <==> lists_method(methods, "POST"@))
    &&& (item.delete is Some <==> lists_method(methods, "DELETE"@))
    &&& (item.options is Some <==> lists_method(methods, "OPTIONS"@))
    &&& (item.head is Some <==> lists_method(methods, "HEAD"@))
    &&& (item.patch is Some <==> lists_method(methods, "PATCH"@))
}

/// The number of paths of a document that are items (not references).
pub open spec fn items_held(entries: Seq<(String, Option<PathItemDoc>)>) -> nat
    decreases entries.len(),
{
    if entries.len() == 0 {
        0
    } else {
        items_held(entries.drop_last()) + if entries.last().1 is Some { 1nat } else { 0nat }
    }
}

/// `path` is the endpoint of some path of `entries` that is an item: under
/// the path's name, listing every operation of the item and nothing else.
pub open spec fn endpoint_of_some_item(entries: Seq<(String, Option<PathItemDoc>)>, path: PathView) -> bool {
    exists|e: int| 0 <= e < entries.len() && (#[trigger] entries[e]).1 is Some && path.path == entries[e].0@
        && lists_operations_of(path.methods, entries[e].1.unwrap())
}

/// The endpoints of an OpenAPI document: one per path that is an item,
/// under the path's name, listing every operation of the item and nothing
/// else.
pub proof fn law_every_path_lists_its_operations(entries: Seq<(String, Option<PathItemDoc>)>)
    ensures
        v3_paths(entries).len() == items_held(entries),
        forall|k: int| 0 <= k < v3_paths(entries).len() ==> #[trigger] endpoint_of_some_item(entries, v3_paths(entries)[k]),
    decreases entries.len(),
{
    if entries.len() > 0 {
        let init = entries.drop_last();
        law_every_path_lists_its_operations(init);
        let rest = v3_paths(init);
        assert forall|k: int| 0 <= k < v3_paths(entries).len() implies #[trigger] endpoint_of_some_item(entries, v3_paths(entries)[k]) by {
            if k < rest.len() {
                assert(v3_paths(entries)[k] == rest[k]);
                assert(endpoint_of_some_item(init, rest[k]));
                let e = choose|e: int| 0 <= e < init.len() && (#[trigger] init[e]).1 is Some && rest[k].path == init[e].0@
                    && lists_operations_of(rest[k].methods, init[e].1.unwrap());
                assert(entries[e] == init[e]);
            } else {
                let e = entries.len() - 1;
                let item = entries.last().1.unwrap();
                assert(v3_paths(entries)[k].methods == item_methods(item));
                law_every_operation_is_listed(item);
                assert(entries[e] == entries.last());
            }
        }
    }
}

} // verus!
