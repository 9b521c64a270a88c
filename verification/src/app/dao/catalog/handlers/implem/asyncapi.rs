//! AsyncAPI documents (versions 1 and 2), read from their YAML text.
use vstd::prelude::*;
use crate::text::{decimal_text, u64_to_decimal};
use crate::yaml::{
    YamlValue, serde_yaml_document, parse_yaml_document, yaml_get, yaml_get_opt, yaml_str,
    str_or, absent_or_str, is_str_node, mapping_len,
};
use crate::app::dao::catalog::DEFAULT_SYSTEM_LAYER;
use crate::seqs::{lemma_map_push, lemma_prefix_push};
use crate::app::dao::catalog::handlers::{SpecHandler, Method, MethodView, Path, PathView, paths_view};

verus! {

/// The text returned for the domain when the document names no server.
pub open spec fn no_server_text() -> Seq<char> {
    "NA - servers attribute not specified"@
}

/// `field` of the `info` entry of the document.
pub open spec fn info_entry(doc: YamlValue, field: Seq<char>) -> Option<YamlValue> {
    yaml_get_opt(yaml_get(doc, "info"@), field)
}

/// The version: `info.version` when it is a string, else `N/A`.
pub open spec fn async_version(doc: YamlValue) -> Seq<char> {
    str_or(info_entry(doc, "version"@), "N/A"@)
}

/// The title: `info.title`, or the empty text when absent.
pub open spec fn async_title(doc: YamlValue) -> Seq<char> {
    str_or(info_entry(doc, "title"@), ""@)
}

/// The description: `info.description`, or the empty text when absent.
pub open spec fn async_description(doc: YamlValue) -> Seq<char> {
    str_or(info_entry(doc, "description"@), ""@)
}

/// The audience: `info.x-audience`, or the default when absent.
pub open spec fn async_audience(doc: YamlValue) -> Seq<char> {
    str_or(info_entry(doc, "x-audience"@), DEFAULT_SYSTEM_LAYER@)
}

/// The layer: the root `x-layer`, or the default when absent.
pub open spec fn async_layer(doc: YamlValue) -> Seq<char> {
    str_or(yaml_get(doc, "x-layer"@), DEFAULT_SYSTEM_LAYER@)
}

/// `info.x-api-id` is absent, a string, an unsigned 64-bit integer, or any
/// node that is neither a string nor a number.
pub open spec fn api_id_readable(doc: YamlValue) -> bool {
    match info_entry(doc, "x-api-id"@) {
        Some(YamlValue::Int(n)) => 0 <= n <= u64::MAX,
        Some(YamlValue::Float(_)) => false,
        _ => true,
    }
}

/// The API id: the string, or the decimal text of the integer, found under
/// `info.x-api-id`; `0` otherwise.
pub open spec fn async_api_id(doc: YamlValue) -> Seq<char> {
    match info_entry(doc, "x-api-id"@) {
        Some(YamlValue::Str(s)) => s@,
        Some(YamlValue::Int(n)) => decimal_text(n as nat),
        _ => "0"@,
    }
}

/// The root `x-systems` is absent or a sequence of strings.
pub open spec fn systems_readable(doc: YamlValue) -> bool {
    match yaml_get(doc, "x-systems"@) {
        None => true,
        Some(YamlValue::Sequence(items)) => forall|i: int| 0 <= i < items@.len() ==> (#[trigger] items@[i]) is Str,
        Some(_) => false,
    }
}

/// The systems: the strings of `x-systems`, or the default system alone.
pub open spec fn async_systems(doc: YamlValue) -> Seq<Seq<char>> {
    match yaml_get(doc, "x-systems"@) {
        Some(YamlValue::Sequence(items)) => items@.map_values(|v: YamlValue| yaml_str(v).unwrap()),
        _ => seq![DEFAULT_SYSTEM_LAYER@],
    }
}

/// The root `servers` is absent, or a sequence whose first element (if any)
/// is a mapping whose first value (if any) is a string.
pub open spec fn servers_readable(doc: YamlValue) -> bool {
    match yaml_get(doc, "servers"@) {
        None => true,
        Some(YamlValue::Sequence(urls)) => urls@.len() > 0 ==> match urls@[0] {
            YamlValue::Mapping(e) => e@.len() > 0 ==> e@[0].1 is Str,
            _ => false,
        },
        Some(_) => false,
    }
}

/// The domain of an AsyncAPI v1 document: the first value of the first
/// server, else the "not specified" text.
pub open spec fn async_v1_domain(doc: YamlValue) -> Seq<char> {
    match yaml_get(doc, "servers"@) {
        Some(YamlValue::Sequence(urls)) => if urls@.len() > 0 {
            match urls@[0] {
                YamlValue::Mapping(e) => if e@.len() > 0 {
                    yaml_str(e@[0].1).unwrap()
                } else {
                    no_server_text()
                },
                _ => no_server_text(),
            }
        } else {
            no_server_text()
        },
        _ => no_server_text(),
    }
}

/// The key names an operation of an event API.
pub open spec fn is_async_operation(k: YamlValue) -> bool {
    is_str_node(k, "publish"@) || is_str_node(k, "subscribe"@)
}

/// The method read from an operation entry.
pub open spec fn operation_view(k: YamlValue, v: YamlValue) -> MethodView {
    MethodView {
        method: yaml_str(k).unwrap(),
        description: str_or(yaml_get(v, "description"@), ""@),
        summary: str_or(yaml_get(v, "summary"@), ""@),
    }
}

/// The methods of a topic: its `publish` and `subscribe` entries, in order.
pub open spec fn topic_methods(ops: Seq<(YamlValue, YamlValue)>) -> Seq<MethodView>
    decreases ops.len(),
{
    if ops.len() == 0 {
        seq![]
    } else {
        let rest = topic_methods(ops.drop_last());
        if is_async_operation(ops.last().0) {
            rest.push(operation_view(ops.last().0, ops.last().1))
        } else {
            rest
        }
    }
}

/// Every key of a topic is a string, and the operations' description and
/// summary are absent or strings.
pub open spec fn topic_readable(ops: Seq<(YamlValue, YamlValue)>) -> bool {
    forall|i: int| 0 <= i < ops.len() ==> {
        &&& (#[trigger] ops[i]).0 is Str
        &&& is_async_operation(ops[i].0) ==> absent_or_str(yaml_get(ops[i].1, "description"@))
            && absent_or_str(yaml_get(ops[i].1, "summary"@))
    }
}

/// The path read from a topic entry.
pub open spec fn topic_view(k: YamlValue, v: YamlValue) -> PathView {
    PathView {
        path: yaml_str(k).unwrap(),
        methods: match v {
            YamlValue::Mapping(ops) => topic_methods(ops@),
            _ => seq![],
        },
    }
}

/// Every topic key is a string and every topic that is a mapping is readable.
pub open spec fn topics_readable(doc: YamlValue) -> bool {
    match yaml_get(doc, "topics"@) {
        Some(YamlValue::Mapping(t)) => forall|i: int| 0 <= i < t@.len() ==> {
            &&& (#[trigger] t@[i]).0 is Str
            &&& (t@[i].1 matches YamlValue::Mapping(ops) ==> topic_readable(ops@))
        },
        _ => true,
    }
}

/// The paths of an AsyncAPI v1 document: one per topic, in order.
pub open spec fn async_v1_paths(doc: YamlValue) -> Seq<PathView> {
    match yaml_get(doc, "topics"@) {
        Some(YamlValue::Mapping(t)) => t@.map_values(|e: (YamlValue, YamlValue)| topic_view(e.0, e.1)),
        _ => seq![],
    }
}

/// `field` of the `info` entry.
fn info_entry_of<'a>(doc: &'a YamlValue, field: &str) -> (r: Option<&'a YamlValue>)
    ensures
        match r {
            Some(v) => info_entry(*doc, field@) == Some(*v),
            None => info_entry(*doc, field@) is None,
        },
{
    match doc.get("info") {
        Some(info) => info.get(field),
        None => None,
    }
}

/// The string of an optional node, or `default`.
pub fn str_or_default(v: Option<&YamlValue>, default: &str) -> (r: String)
    ensures
        r@ == str_or(
            match v {
                Some(n) => Some(*n),
                None => None,
            },
            default@,
        ),
{
    match v {
        Some(n) => match n.as_str() {
            Some(s) => s.to_owned(),
            None => default.to_owned(),
        },
        None => default.to_owned(),
    }
}

/// The string of a node that is absent or a string, or `default` when absent.
fn required_str_or(v: Option<&YamlValue>, default: &str) -> (r: String)
    requires
        absent_or_str(
            match v {
                Some(n) => Some(*n),
                None => None,
            },
        ),
    ensures
        r@ == str_or(
            match v {
                Some(n) => Some(*n),
                None => None,
            },
            default@,
        ),
{
    str_or_default(v, default)
}

/// The version of a parsed document.
pub fn version_of(doc: &YamlValue) -> (r: String)
    ensures
        r@ == async_version(*doc),
{
    str_or_default(info_entry_of(doc, "version"), "N/A")
}

/// The title of a parsed document.
pub fn title_of(doc: &YamlValue) -> (r: String)
    requires
        absent_or_str(info_entry(*doc, "title"@)),
    ensures
        r@ == async_title(*doc),
{
    required_str_or(info_entry_of(doc, "title"), "")
}

/// The description of a parsed document.
pub fn description_of(doc: &YamlValue) -> (r: String)
    requires
        absent_or_str(info_entry(*doc, "description"@)),
    ensures
        r@ == async_description(*doc),
{
    required_str_or(info_entry_of(doc, "description"), "")
}

/// The audience of a parsed document.
pub fn audience_of(doc: &YamlValue) -> (r: String)
    requires
        absent_or_str(info_entry(*doc, "x-audience"@)),
    ensures
        r@ == async_audience(*doc),
{
    required_str_or(info_entry_of(doc, "x-audience"), DEFAULT_SYSTEM_LAYER)
}

/// The layer of a parsed document.
pub fn layer_of(doc: &YamlValue) -> (r: String)
    requires
        absent_or_str(yaml_get(*doc, "x-layer"@)),
    ensures
        r@ == async_layer(*doc),
{
    required_str_or(doc.get("x-layer"), DEFAULT_SYSTEM_LAYER)
}

/// Number of entries of the mapping under `key` (0 when it is not a mapping).
pub fn entries_len_of(doc: &YamlValue, key: &str) -> (r: usize)
    ensures
        r == mapping_len(yaml_get(*doc, key@)),
{
    match doc.get(key) {
        Some(YamlValue::Mapping(m)) => m.len(),
        _ => 0,
    }
}

/// The API id of a parsed document.
pub fn api_id_of(doc: &YamlValue) -> (r: String)
    requires
        api_id_readable(*doc),
    ensures
        r@ == async_api_id(*doc),
{
    match info_entry_of(doc, "x-api-id") {
        Some(YamlValue::Str(s)) => s.clone(),
        Some(YamlValue::Int(n)) => u64_to_decimal(*n as u64),
        _ => "0".to_owned(),
    }
}

/// The systems of a parsed document.
pub fn systems_of(doc: &YamlValue) -> (r: Vec<String>)
    requires
        systems_readable(*doc),
    ensures
        r@.map_values(|s: String| s@) == async_systems(*doc),
{
    match doc.get("x-systems") {
        Some(YamlValue::Sequence(items)) => {
            let mut out: Vec<String> = Vec::new();
            let mut i: usize = 0;
            while i < items.len()
                invariant
                    i <= items@.len(),
                    forall|j: int| 0 <= j < items@.len() ==> (#[trigger] items@[j]) is Str,
                    out@.map_values(|s: String| s@) == items@.subrange(0, i as int).map_values(
                        |v: YamlValue| yaml_str(v).unwrap(),
                    ),
                decreases items@.len() - i,
            {
                let s = match &items[i] {
                    YamlValue::Str(s) => s.clone(),
                    _ => {
                        proof {
                            assert(items@[i as int] is Str);
                        }
                        String::new()
                    },
                };
                let ghost prev = out@;
                out.push(s);
                proof {
                    lemma_map_push(prev, s, |s: String| s@);
                    lemma_prefix_push(items@, i as int);
                    lemma_map_push(items@.subrange(0, i as int), items@[i as int], |v: YamlValue| yaml_str(v).unwrap());
                }
                i = i + 1;
            }
            proof {
                assert(items@.subrange(0, items@.len() as int) =~= items@);
            }
            out
        },
        _ => {
            let mut out: Vec<String> = Vec::new();
            out.push(DEFAULT_SYSTEM_LAYER.to_owned());
            proof {
                assert(out@.map_values(|s: String| s@) =~= seq![DEFAULT_SYSTEM_LAYER@]);
            }
            out
        },
    }
}

/// The domain of a parsed AsyncAPI v1 document.
pub fn v1_domain_of(doc: &YamlValue) -> (r: String)
    requires
        servers_readable(*doc),
    ensures
        r@ == async_v1_domain(*doc),
{
    match doc.get("servers") {
        Some(YamlValue::Sequence(urls)) => {
            if urls.len() > 0 {
                match &urls[0] {
                    YamlValue::Mapping(e) => {
                        if e.len() > 0 {
                            match &e[0].1 {
                                YamlValue::Str(s) => s.clone(),
                                _ => "NA - servers attribute not specified".to_owned(),
                            }
                        } else {
                            "NA - servers attribute not specified".to_owned()
                        }
                    },
                    _ => "NA - servers attribute not specified".to_owned(),
                }
            } else {
                "NA - servers attribute not specified".to_owned()
            }
        },
        _ => "NA - servers attribute not specified".to_owned(),
    }
}

/// The methods of a topic.
fn topic_methods_of(ops: &Vec<(YamlValue, YamlValue)>) -> (r: Vec<Method>)
    requires
        topic_readable(ops@),
    ensures
        r@.map_values(|m: Method| m@) == topic_methods(ops@),
{
    let mut out: Vec<Method> = Vec::new();
    let mut i: usize = 0;
    while i < ops.len()
        invariant
            i <= ops@.len(),
            topic_readable(ops@),
            out@.map_values(|m: Method| m@) == topic_methods(ops@.subrange(0, i as int)),
        decreases ops@.len() - i,
    {
        proof {
            assert(ops@.subrange(0, i + 1).drop_last() =~= ops@.subrange(0, i as int));
            assert(ops@.subrange(0, i + 1).last() == ops@[i as int]);
        }
        let key = &ops[i].0;
        let value = &ops[i].1;
        if let YamlValue::Str(k) = key {
            let is_op = crate::text::str_eq(k.as_str(), "publish") || crate::text::str_eq(k.as_str(), "subscribe");
            if is_op {
                let description = required_str_or(value.get("description"), "");
                let summary = required_str_or(value.get("summary"), "");
                out.push(Method { method: k.clone(), description, summary });
            }
            proof {
                assert(out@.map_values(|m: Method| m@) =~= topic_methods(ops@.subrange(0, i + 1)));
            }
        } else {
            proof {
                assert(ops@[i as int].0 is Str);
            }
        }
        i = i + 1;
    }
    proof {
        assert(ops@.subrange(0, ops@.len() as int) =~= ops@);
    }
    out
}

/// The paths of a parsed AsyncAPI v1 document: one per topic.
pub fn v1_paths_of(doc: &YamlValue) -> (r: Vec<Path>)
    requires
        topics_readable(*doc),
    ensures
        paths_view(r@) == async_v1_paths(*doc),
{
    let mut all_paths: Vec<Path> = Vec::new();
    match doc.get("topics") {
        Some(YamlValue::Mapping(topics)) => {
            let mut i: usize = 0;
            while i < topics.len()
                invariant
                    i <= topics@.len(),
                    forall|j: int| 0 <= j < topics@.len() ==> {
                        &&& (#[trigger] topics@[j]).0 is Str
                        &&& (topics@[j].1 matches YamlValue::Mapping(ops) ==> topic_readable(ops@))
                    },
                    paths_view(all_paths@) == topics@.subrange(0, i as int).map_values(
                        |e: (YamlValue, YamlValue)| topic_view(e.0, e.1),
                    ),
                decreases topics@.len() - i,
            {
                let methods = match &topics[i].1 {
                    YamlValue::Mapping(ops) => topic_methods_of(ops),
                    _ => {
                        let empty: Vec<Method> = Vec::new();
                        proof {
                            assert(empty@.map_values(|m: Method| m@) =~= seq![]);
                        }
                        empty
                    },
                };
                let name = match &topics[i].0 {
                    YamlValue::Str(s) => s.clone(),
                    _ => {
                        proof {
                            assert(topics@[i as int].0 is Str);
                        }
                        String::new()
                    },
                };
                let ghost prev = all_paths@;
                let p = Path { path: name, methods };
                all_paths.push(p);
                proof {
                    assert(p@ == topic_view(topics@[i as int].0, topics@[i as int].1));
                    assert(paths_view(all_paths@) =~= paths_view(prev).push(p@));
                    lemma_prefix_push(topics@, i as int);
                    lemma_map_push(topics@.subrange(0, i as int), topics@[i as int], |e: (YamlValue, YamlValue)| topic_view(e.0, e.1));
                }
                i = i + 1;
            }
            proof {
                assert(topics@.subrange(0, topics@.len() as int) =~= topics@);
            }
        },
        _ => {
            proof {
                assert(paths_view(all_paths@) =~= seq![]);
            }
        },
    }
    all_paths
}

/// The text is a YAML document.
pub open spec fn parses(text: Seq<char>) -> bool {
    serde_yaml_document(text) is Some
}

/// The document of a text that parses.
pub open spec fn parsed(text: Seq<char>) -> YamlValue {
    serde_yaml_document(text).unwrap()
}

/// Parses a text known to be a YAML document.
fn document_of(text: &str) -> (r: YamlValue)
    requires
        parses(text@),
    ensures
        r == parsed(text@),
{
    match parse_yaml_document(text) {
        Some(d) => d,
        None => {
            proof {
                assert(false);
            }
            YamlValue::Null
        },
    }
}

/// An AsyncAPI v2 document, kept as its text.
#[derive(Debug, Clone)]
pub struct V2 {
    pub spec: String,
}

impl V2 {
    /// Keeps the text of the document; it is read when an attribute is asked for.
    pub fn new(val: &str) -> (r: Result<Self, String>)
        ensures
            r matches Ok(v) && v.spec@ == val@,
    {
        Ok(V2 { spec: val.to_owned() })
    }

    /// The parsed document, or `None` when the text is not YAML.
    pub fn document(&self) -> (r: Option<YamlValue>)
        ensures
            r == serde_yaml_document(self.spec@),
    {
        parse_yaml_document(self.spec.as_str())
    }
}

impl SpecHandler for V2 {
    open spec fn pre_get_version(&self) -> bool {
        parses(self.spec@)
    }

    open spec fn pre_get_title(&self) -> bool {
        parses(self.spec@) && absent_or_str(info_entry(parsed(self.spec@), "title"@))
    }

    open spec fn pre_get_description(&self) -> bool {
        parses(self.spec@) && absent_or_str(info_entry(parsed(self.spec@), "description"@))
    }

    open spec fn pre_get_paths_len(&self) -> bool {
        parses(self.spec@)
    }

    open spec fn pre_get_paths(&self) -> bool {
        parses(self.spec@)
    }

    open spec fn pre_get_audience(&self) -> bool {
        parses(self.spec@) && absent_or_str(info_entry(parsed(self.spec@), "x-audience"@))
    }

    open spec fn pre_get_api_id(&self) -> bool {
        parses(self.spec@) && api_id_readable(parsed(self.spec@))
    }

    open spec fn pre_get_layer(&self) -> bool {
        parses(self.spec@) && absent_or_str(yaml_get(parsed(self.spec@), "x-layer"@))
    }

    open spec fn pre_get_systems(&self) -> bool {
        parses(self.spec@) && systems_readable(parsed(self.spec@))
    }

    open spec fn pre_get_domain(&self) -> bool {
        parses(self.spec@)
    }

    fn get_version(&self) -> (r: String)
        ensures
            r@ == async_version(parsed(self.spec@)),
    {
        version_of(&document_of(self.spec.as_str()))
    }

    fn get_title(&self) -> (r: String)
        ensures
            r@ == async_title(parsed(self.spec@)),
    {
        title_of(&document_of(self.spec.as_str()))
    }

    fn get_description(&self) -> (r: String)
        ensures
            r@ == async_description(parsed(self.spec@)),
    {
        description_of(&document_of(self.spec.as_str()))
    }

    fn get_paths_len(&self) -> (r: usize)
        ensures
            r == mapping_len(yaml_get(parsed(self.spec@), "channels"@)),
    {
        entries_len_of(&document_of(self.spec.as_str()), "channels")
    }

    /// The paths of a v2 document: none is listed (its channels are not
    /// turned into paths), once the text is known to parse.
    fn get_paths(&self) -> (r: Vec<Path>)
        ensures
            r@.len() == 0,
    {
        let _doc = document_of(self.spec.as_str());
        Vec::new()
    }

    fn get_audience(&self) -> (r: String)
        ensures
            r@ == async_audience(parsed(self.spec@)),
    {
        audience_of(&document_of(self.spec.as_str()))
    }

    fn get_api_id(&self) -> (r: String)
        ensures
            r@ == async_api_id(parsed(self.spec@)),
    {
        api_id_of(&document_of(self.spec.as_str()))
    }

    fn get_layer(&self) -> (r: String)
        ensures
            r@ == async_layer(parsed(self.spec@)),
    {
        layer_of(&document_of(self.spec.as_str()))
    }

    fn get_systems(&self) -> (r: Vec<String>)
        ensures
            r@.map_values(|s: String| s@) == async_systems(parsed(self.spec@)),
    {
        systems_of(&document_of(self.spec.as_str()))
    }

    fn get_domain(&self) -> (r: String)
        ensures
            r@ == "To Be Implemented"@,
    {
        let _doc = document_of(self.spec.as_str());
        "To Be Implemented".to_owned()
    }
}

/// An AsyncAPI v1 document, kept as its text.
#[derive(Debug, Clone)]
pub struct V1 {
    pub spec: String,
}

impl V1 {
    /// Keeps the text of the document; it is read when an attribute is asked for.
    pub fn new(val: &str) -> (r: Result<Self, String>)
        ensures
            r matches Ok(v) && v.spec@ == val@,
    {
        Ok(V1 { spec: val.to_owned() })
    }

    /// The parsed document, or `None` when the text is not YAML.
    pub fn document(&self) -> (r: Option<YamlValue>)
        ensures
            r == serde_yaml_document(self.spec@),
    {
        parse_yaml_document(self.spec.as_str())
    }
}

impl SpecHandler for V1 {
    open spec fn pre_get_version(&self) -> bool {
        parses(self.spec@)
    }

    open spec fn pre_get_title(&self) -> bool {
        parses(self.spec@) && absent_or_str(info_entry(parsed(self.spec@), "title"@))
    }

    open spec fn pre_get_description(&self) -> bool {
        parses(self.spec@) && absent_or_str(info_entry(parsed(self.spec@), "description"@))
    }

    open spec fn pre_get_paths_len(&self) -> bool {
        parses(self.spec@)
    }

    open spec fn pre_get_paths(&self) -> bool {
        parses(self.spec@) && topics_readable(parsed(self.spec@))
    }

    open spec fn pre_get_audience(&self) -> bool {
        parses(self.spec@) && absent_or_str(info_entry(parsed(self.spec@), "x-audience"@))
    }

    open spec fn pre_get_api_id(&self) -> bool {
        parses(self.spec@) && api_id_readable(parsed(self.spec@))
    }

    open spec fn pre_get_layer(&self) -> bool {
        parses(self.spec@) && absent_or_str(yaml_get(parsed(self.spec@), "x-layer"@))
    }

    open spec fn pre_get_systems(&self) -> bool {
        parses(self.spec@) && systems_readable(parsed(self.spec@))
    }

    open spec fn pre_get_domain(&self) -> bool {
        parses(self.spec@) && servers_readable(parsed(self.spec@))
    }

    fn get_version(&self) -> (r: String)
        ensures
            r@ == async_version(parsed(self.spec@)),
    {
        version_of(&document_of(self.spec.as_str()))
    }

    fn get_title(&self) -> (r: String)
        ensures
            r@ == async_title(parsed(self.spec@)),
    {
        title_of(&document_of(self.spec.as_str()))
    }

    fn get_description(&self) -> (r: String)
        ensures
            r@ == async_description(parsed(self.spec@)),
    {
        description_of(&document_of(self.spec.as_str()))
    }

    fn get_paths_len(&self) -> (r: usize)
        ensures
            r == mapping_len(yaml_get(parsed(self.spec@), "topics"@)),
    {
        entries_len_of(&document_of(self.spec.as_str()), "topics")
    }

    fn get_paths(&self) -> (r: Vec<Path>)
        ensures
            paths_view(r@) == async_v1_paths(parsed(self.spec@)),
    {
        v1_paths_of(&document_of(self.spec.as_str()))
    }

    fn get_audience(&self) -> (r: String)
        ensures
            r@ == async_audience(parsed(self.spec@)),
    {
        audience_of(&document_of(self.spec.as_str()))
    }

    fn get_api_id(&self) -> (r: String)
        ensures
            r@ == async_api_id(parsed(self.spec@)),
    {
        api_id_of(&document_of(self.spec.as_str()))
    }

    fn get_layer(&self) -> (r: String)
        ensures
            r@ == async_layer(parsed(self.spec@)),
    {
        layer_of(&document_of(self.spec.as_str()))
    }

    fn get_systems(&self) -> (r: Vec<String>)
        ensures
            r@.map_values(|s: String| s@) == async_systems(parsed(self.spec@)),
    {
        systems_of(&document_of(self.spec.as_str()))
    }

    fn get_domain(&self) -> (r: String)
        ensures
            r@ == async_v1_domain(parsed(self.spec@)),
    {
        v1_domain_of(&document_of(self.spec.as_str()))
    }
}


/// The node is absent or a string.
pub fn check_absent_or_str(v: Option<&YamlValue>) -> (r: bool)
    ensures
        r == absent_or_str(match v { Some(n) => Some(*n), None => None }),
{
    match v {
        Some(YamlValue::Str(_)) => true,
        Some(_) => false,
        None => true,
    }
}

/// The `info` entry `field` of a document is absent or a string.
fn check_info_text(doc: &YamlValue, field: &str) -> (r: bool)
    ensures
        r == absent_or_str(info_entry(*doc, field@)),
{
    match doc.get("info") {
        Some(info) => check_absent_or_str(info.get(field)),
        None => true,
    }
}

/// `api_id_readable`, decided.
pub fn check_api_id(doc: &YamlValue) -> (r: bool)
    ensures
        r == api_id_readable(*doc),
{
    let entry = match doc.get("info") {
        Some(info) => info.get("x-api-id"),
        None => None,
    };
    match entry {
        Some(YamlValue::Int(n)) => 0 <= *n && *n <= 0xffff_ffff_ffff_ffff,
        Some(YamlValue::Float(_)) => false,
        _ => true,
    }
}

/// `systems_readable`, decided.
pub fn check_systems(doc: &YamlValue) -> (r: bool)
    ensures
        r == systems_readable(*doc),
{
    match doc.get("x-systems") {
        None => true,
        Some(YamlValue::Sequence(items)) => {
            let mut i: usize = 0;
            while i < items.len()
                invariant
                    i <= items@.len(),
                    yaml_get(*doc, "x-systems"@) == Some(YamlValue::Sequence(*items)),
                    forall|j: int| 0 <= j < i ==> (#[trigger] items@[j]) is Str,
                decreases items@.len() - i,
            {
                match &items[i] {
                    YamlValue::Str(_) => {},
                    _ => {
                        proof {
                            assert(!(items@[i as int] is Str));
                        }
                        return false;
                    },
                }
                i = i + 1;
            }
            true
        },
        Some(_) => false,
    }
}

/// `servers_readable`, decided.
pub fn check_servers(doc: &YamlValue) -> (r: bool)
    ensures
        r == servers_readable(*doc),
{
    match doc.get("servers") {
        None => true,
        Some(YamlValue::Sequence(urls)) => {
            if urls.len() == 0 {
                true
            } else {
                match &urls[0] {
                    YamlValue::Mapping(e) => {
                        if e.len() == 0 {
                            true
                        } else {
                            match &e[0].1 {
                                YamlValue::Str(_) => true,
                                _ => false,
                            }
                        }
                    },
                    _ => false,
                }
            }
        },
        Some(_) => false,
    }
}

/// `topic_readable`, decided.
fn check_topic(ops: &Vec<(YamlValue, YamlValue)>) -> (r: bool)
    ensures
        r == topic_readable(ops@),
{
    let mut i: usize = 0;
    while i < ops.len()
        invariant
            i <= ops@.len(),
            forall|j: int| 0 <= j < i ==> {
                &&& (#[trigger] ops@[j]).0 is Str
                &&& is_async_operation(ops@[j].0) ==> absent_or_str(yaml_get(ops@[j].1, "description"@))
                    && absent_or_str(yaml_get(ops@[j].1, "summary"@))
            },
        decreases ops@.len() - i,
    {
        match &ops[i].0 {
            YamlValue::Str(k) => {
                let is_op = crate::text::str_eq(k.as_str(), "publish") || crate::text::str_eq(k.as_str(), "subscribe");
                proof {
                    reveal_strlit("publish");
                    reveal_strlit("subscribe");
                    assert(is_op == is_async_operation(ops@[i as int].0));
                }
                if is_op {
                    let value = &ops[i].1;
                    if !check_absent_or_str(value.get("description")) || !check_absent_or_str(value.get("summary")) {
                        return false;
                    }
                }
            },
            _ => {
                return false;
            },
        }
        i = i + 1;
    }
    true
}

/// `topics_readable`, decided.
pub fn check_topics(doc: &YamlValue) -> (r: bool)
    ensures
        r == topics_readable(*doc),
{
    match doc.get("topics") {
        Some(YamlValue::Mapping(t)) => {
            let mut i: usize = 0;
            while i < t.len()
                invariant
                    i <= t@.len(),
                    yaml_get(*doc, "topics"@) == Some(YamlValue::Mapping(*t)),
                    forall|j: int| 0 <= j < i ==> {
                        &&& (#[trigger] t@[j]).0 is Str
                        &&& (t@[j].1 matches YamlValue::Mapping(ops) ==> topic_readable(ops@))
                    },
                decreases t@.len() - i,
            {
                match &t[i].0 {
                    YamlValue::Str(_) => {},
                    _ => {
                        proof {
                            assert(!(t@[i as int].0 is Str));
                        }
                        return false;
                    },
                }
                match &t[i].1 {
                    YamlValue::Mapping(ops) => {
                        if !check_topic(ops) {
                            proof {
                                assert(t@[i as int].1 matches YamlValue::Mapping(o) && !topic_readable(o@));
                            }
                            return false;
                        }
                    },
                    _ => {},
                }
                i = i + 1;
            }
            true
        },
        _ => true,
    }
}

/// Every reading of an AsyncAPI document of this text is defined: it
/// parses, its `info` texts, layer, API id and systems have the shapes
/// read, and so do its servers and topics for version 1 (`v1`).
pub open spec fn async_readable(text: Seq<char>, v1: bool) -> bool {
    &&& parses(text)
    &&& absent_or_str(info_entry(parsed(text), "title"@))
    &&& absent_or_str(info_entry(parsed(text), "description"@))
    &&& absent_or_str(info_entry(parsed(text), "x-audience"@))
    &&& absent_or_str(yaml_get(parsed(text), "x-layer"@))
    &&& api_id_readable(parsed(text))
    &&& systems_readable(parsed(text))
    &&& (v1 ==> servers_readable(parsed(text)))
    &&& (v1 ==> topics_readable(parsed(text)))
}

/// `async_readable`, decided.
pub fn check_async_readable(text: &str, v1: bool) -> (r: bool)
    ensures
        r == async_readable(text@, v1),
{
    match parse_yaml_document(text) {
        None => false,
        Some(doc) => {
            check_info_text(&doc, "title") && check_info_text(&doc, "description") && check_info_text(&doc, "x-audience")
                && check_absent_or_str(doc.get("x-layer")) && check_api_id(&doc) && check_systems(&doc)
                && (!v1 || check_servers(&doc)) && (!v1 || check_topics(&doc))
        },
    }
}
} // verus!
