//! A specification file of a catalog: its format, where it lies, and the
//! handler that reads it.
use vstd::prelude::*;
use vstd::utf8::{encode_utf8, decode_utf8, is_char_boundary, encode_utf8_decode_utf8, encode_utf8_valid_utf8, encode_utf8_first_scalar, pop_first_scalar, encode_scalar};
use vstd::string::StringSliceAdditionalSpecFns;
use crate::text::{debug_text, debug_string};
use crate::pattern::{regex_finds, regex_is_match, regex_group};
use crate::yaml::{yaml_get, mapping_len};
use crate::app::dao::catalog::handlers::{SpecHandler, SpecType, Path, PathView, paths_view};
use crate::app::dao::catalog::handlers::implem::asyncapi::{
    V1, V2, parsed, async_version, async_title, async_description, async_audience, async_api_id,
    async_layer, async_systems, async_v1_paths, async_v1_domain, check_async_readable,
};
use crate::app::dao::catalog::handlers::implem::opanapi::{
    V3, openapi_document, v3_paths, items_held, endpoint_of_some_item, law_every_path_lists_its_operations, v3_domain, v3_systems, extension_text_or, extension_lookup, check_v3_readable,
};
use crate::text::lowercase_text;
use crate::app::dao::catalog::DEFAULT_SYSTEM_LAYER;

verus! {

/// The handler of a specification, by format.
#[derive(Debug, Clone)]
pub enum SpecHandlerKind {
    OpenAPIv3(V3),
    AsyncAPIv1(V1),
    AsyncAPIv2(V2),
}

impl SpecHandlerKind {
    /// The format the handler reads.
    pub open spec fn format(self) -> SpecType {
        match self {
            SpecHandlerKind::OpenAPIv3(_) => SpecType::OpenAPIv3,
            SpecHandlerKind::AsyncAPIv1(_) => SpecType::AsyncAPIv1,
            SpecHandlerKind::AsyncAPIv2(_) => SpecType::AsyncAPIv2,
        }
    }

    pub open spec fn version_text(self) -> Seq<char> {
        match self {
            SpecHandlerKind::OpenAPIv3(h) => h.spec.version@,
            SpecHandlerKind::AsyncAPIv1(h) => async_version(parsed(h.spec@)),
            SpecHandlerKind::AsyncAPIv2(h) => async_version(parsed(h.spec@)),
        }
    }

    pub open spec fn title_text(self) -> Seq<char> {
        match self {
            SpecHandlerKind::OpenAPIv3(h) => h.spec.title@,
            SpecHandlerKind::AsyncAPIv1(h) => async_title(parsed(h.spec@)),
            SpecHandlerKind::AsyncAPIv2(h) => async_title(parsed(h.spec@)),
        }
    }

    pub open spec fn description_text(self) -> Seq<char> {
        match self {
            SpecHandlerKind::OpenAPIv3(h) => match h.spec.description {
                Some(d) => d@,
                None => ""@,
            },
            SpecHandlerKind::AsyncAPIv1(h) => async_description(parsed(h.spec@)),
            SpecHandlerKind::AsyncAPIv2(h) => async_description(parsed(h.spec@)),
        }
    }

    pub open spec fn paths_count(self) -> nat {
        match self {
            SpecHandlerKind::OpenAPIv3(h) => h.spec.paths@.len(),
            SpecHandlerKind::AsyncAPIv1(h) => mapping_len(yaml_get(parsed(h.spec@), "topics"@)),
            SpecHandlerKind::AsyncAPIv2(h) => mapping_len(yaml_get(parsed(h.spec@), "channels"@)),
        }
    }

    pub open spec fn paths_list(self) -> Seq<PathView> {
        match self {
            SpecHandlerKind::OpenAPIv3(h) => v3_paths(h.spec.paths@),
            SpecHandlerKind::AsyncAPIv1(h) => async_v1_paths(parsed(h.spec@)),
            SpecHandlerKind::AsyncAPIv2(h) => seq![],
        }
    }

    pub open spec fn audience_text(self) -> Seq<char> {
        match self {
            SpecHandlerKind::OpenAPIv3(h) => extension_text_or(
                extension_lookup(h.spec.info_extensions@, "x-audience"@),
                DEFAULT_SYSTEM_LAYER@,
            ),
            SpecHandlerKind::AsyncAPIv1(h) => async_audience(parsed(h.spec@)),
            SpecHandlerKind::AsyncAPIv2(h) => async_audience(parsed(h.spec@)),
        }
    }

    pub open spec fn api_id_text(self) -> Seq<char> {
        match self {
            SpecHandlerKind::OpenAPIv3(h) => extension_text_or(
                extension_lookup(h.spec.info_extensions@, "x-api-id"@),
                "0"@,
            ),
            SpecHandlerKind::AsyncAPIv1(h) => async_api_id(parsed(h.spec@)),
            SpecHandlerKind::AsyncAPIv2(h) => async_api_id(parsed(h.spec@)),
        }
    }

    pub open spec fn layer_text(self) -> Seq<char> {
        match self {
            SpecHandlerKind::OpenAPIv3(h) => lowercase_text(
                extension_text_or(extension_lookup(h.spec.extensions@, "x-layer"@), DEFAULT_SYSTEM_LAYER@),
            ),
            SpecHandlerKind::AsyncAPIv1(h) => async_layer(parsed(h.spec@)),
            SpecHandlerKind::AsyncAPIv2(h) => async_layer(parsed(h.spec@)),
        }
    }

    pub open spec fn systems_list(self) -> Seq<Seq<char>> {
        match self {
            SpecHandlerKind::OpenAPIv3(h) => v3_systems(h.spec),
            SpecHandlerKind::AsyncAPIv1(h) => async_systems(parsed(h.spec@)),
            SpecHandlerKind::AsyncAPIv2(h) => async_systems(parsed(h.spec@)),
        }
    }

    pub open spec fn domain_text(self) -> Seq<char> {
        match self {
            SpecHandlerKind::OpenAPIv3(h) => v3_domain(h.spec),
            SpecHandlerKind::AsyncAPIv1(h) => async_v1_domain(parsed(h.spec@)),
            SpecHandlerKind::AsyncAPIv2(h) => "To Be Implemented"@,
        }
    }
}

impl SpecHandler for SpecHandlerKind {
    open spec fn pre_get_version(&self) -> bool {
        match self {
            SpecHandlerKind::OpenAPIv3(h) => h.pre_get_version(),
            SpecHandlerKind::AsyncAPIv1(h) => h.pre_get_version(),
            SpecHandlerKind::AsyncAPIv2(h) => h.pre_get_version(),
        }
    }

    open spec fn pre_get_title(&self) -> bool {
        match self {
            SpecHandlerKind::OpenAPIv3(h) => h.pre_get_title(),
            SpecHandlerKind::AsyncAPIv1(h) => h.pre_get_title(),
            SpecHandlerKind::AsyncAPIv2(h) => h.pre_get_title(),
        }
    }

    open spec fn pre_get_description(&self) -> bool {
        match self {
            SpecHandlerKind::OpenAPIv3(h) => h.pre_get_description(),
            SpecHandlerKind::AsyncAPIv1(h) => h.pre_get_description(),
            SpecHandlerKind::AsyncAPIv2(h) => h.pre_get_description(),
        }
    }

    open spec fn pre_get_paths_len(&self) -> bool {
        match self {
            SpecHandlerKind::OpenAPIv3(h) => h.pre_get_paths_len(),
            SpecHandlerKind::AsyncAPIv1(h) => h.pre_get_paths_len(),
            SpecHandlerKind::AsyncAPIv2(h) => h.pre_get_paths_len(),
        }
    }

    open spec fn pre_get_paths(&self) -> bool {
        match self {
            SpecHandlerKind::OpenAPIv3(h) => h.pre_get_paths(),
            SpecHandlerKind::AsyncAPIv1(h) => h.pre_get_paths(),
            SpecHandlerKind::AsyncAPIv2(h) => h.pre_get_paths(),
        }
    }

    open spec fn pre_get_audience(&self) -> bool {
        match self {
            SpecHandlerKind::OpenAPIv3(h) => h.pre_get_audience(),
            SpecHandlerKind::AsyncAPIv1(h) => h.pre_get_audience(),
            SpecHandlerKind::AsyncAPIv2(h) => h.pre_get_audience(),
        }
    }

    open spec fn pre_get_api_id(&self) -> bool {
        match self {
            SpecHandlerKind::OpenAPIv3(h) => h.pre_get_api_id(),
            SpecHandlerKind::AsyncAPIv1(h) => h.pre_get_api_id(),
            SpecHandlerKind::AsyncAPIv2(h) => h.pre_get_api_id(),
        }
    }

    open spec fn pre_get_layer(&self) -> bool {
        match self {
            SpecHandlerKind::OpenAPIv3(h) => h.pre_get_layer(),
            SpecHandlerKind::AsyncAPIv1(h) => h.pre_get_layer(),
            SpecHandlerKind::AsyncAPIv2(h) => h.pre_get_layer(),
        }
    }

    open spec fn pre_get_systems(&self) -> bool {
        match self {
            SpecHandlerKind::OpenAPIv3(h) => h.pre_get_systems(),
            SpecHandlerKind::AsyncAPIv1(h) => h.pre_get_systems(),
            SpecHandlerKind::AsyncAPIv2(h) => h.pre_get_systems(),
        }
    }

    open spec fn pre_get_domain(&self) -> bool {
        match self {
            SpecHandlerKind::OpenAPIv3(h) => h.pre_get_domain(),
            SpecHandlerKind::AsyncAPIv1(h) => h.pre_get_domain(),
            SpecHandlerKind::AsyncAPIv2(h) => h.pre_get_domain(),
        }
    }

    fn get_version(&self) -> (r: String)
        ensures
            r@ == self.version_text(),
    {
        match self {
            SpecHandlerKind::OpenAPIv3(h) => h.get_version(),
            SpecHandlerKind::AsyncAPIv1(h) => h.get_version(),
            SpecHandlerKind::AsyncAPIv2(h) => h.get_version(),
        }
    }

    fn get_title(&self) -> (r: String)
        ensures
            r@ == self.title_text(),
    {
        match self {
            SpecHandlerKind::OpenAPIv3(h) => h.get_title(),
            SpecHandlerKind::AsyncAPIv1(h) => h.get_title(),
            SpecHandlerKind::AsyncAPIv2(h) => h.get_title(),
        }
    }

    fn get_description(&self) -> (r: String)
        ensures
            r@ == self.description_text(),
    {
        match self {
            SpecHandlerKind::OpenAPIv3(h) => h.get_description(),
            SpecHandlerKind::AsyncAPIv1(h) => h.get_description(),
            SpecHandlerKind::AsyncAPIv2(h) => h.get_description(),
        }
    }

    fn get_paths_len(&self) -> (r: usize)
        ensures
            r == self.paths_count(),
    {
        match self {
            SpecHandlerKind::OpenAPIv3(h) => h.get_paths_len(),
            SpecHandlerKind::AsyncAPIv1(h) => h.get_paths_len(),
            SpecHandlerKind::AsyncAPIv2(h) => h.get_paths_len(),
        }
    }

    fn get_paths(&self) -> (r: Vec<Path>)
        ensures
            paths_view(r@) == self.paths_list(),
    {
        match self {
            SpecHandlerKind::OpenAPIv3(h) => h.get_paths(),
            SpecHandlerKind::AsyncAPIv1(h) => h.get_paths(),
            SpecHandlerKind::AsyncAPIv2(h) => {
                let r = h.get_paths();
                proof {
                    assert(paths_view(r@) =~= seq![]);
                }
                r
            },
        }
    }

    fn get_audience(&self) -> (r: String)
        ensures
            r@ == self.audience_text(),
    {
        match self {
            SpecHandlerKind::OpenAPIv3(h) => h.get_audience(),
            SpecHandlerKind::AsyncAPIv1(h) => h.get_audience(),
            SpecHandlerKind::AsyncAPIv2(h) => h.get_audience(),
        }
    }

    fn get_api_id(&self) -> (r: String)
        ensures
            r@ == self.api_id_text(),
    {
        match self {
            SpecHandlerKind::OpenAPIv3(h) => h.get_api_id(),
            SpecHandlerKind::AsyncAPIv1(h) => h.get_api_id(),
            SpecHandlerKind::AsyncAPIv2(h) => h.get_api_id(),
        }
    }

    fn get_layer(&self) -> (r: String)
        ensures
            r@ == self.layer_text(),
    {
        match self {
            SpecHandlerKind::OpenAPIv3(h) => h.get_layer(),
            SpecHandlerKind::AsyncAPIv1(h) => h.get_layer(),
            SpecHandlerKind::AsyncAPIv2(h) => h.get_layer(),
        }
    }

    fn get_systems(&self) -> (r: Vec<String>)
        ensures
            r@.map_values(|s: String| s@) == self.systems_list(),
    {
        match self {
            SpecHandlerKind::OpenAPIv3(h) => h.get_systems(),
            SpecHandlerKind::AsyncAPIv1(h) => h.get_systems(),
            SpecHandlerKind::AsyncAPIv2(h) => h.get_systems(),
        }
    }

    fn get_domain(&self) -> (r: String)
        ensures
            r@ == self.domain_text(),
    {
        match self {
            SpecHandlerKind::OpenAPIv3(h) => h.get_domain(),
            SpecHandlerKind::AsyncAPIv1(h) => h.get_domain(),
            SpecHandlerKind::AsyncAPIv2(h) => h.get_domain(),
        }
    }
}

/// Every reading of the handler is defined (none of its getters has a
/// condition left unmet).
pub open spec fn fully_readable(h: SpecHandlerKind) -> bool {
    &&& h.pre_get_version()
    &&& h.pre_get_title()
    &&& h.pre_get_description()
    &&& h.pre_get_paths_len()
    &&& h.pre_get_paths()
    &&& h.pre_get_audience()
    &&& h.pre_get_api_id()
    &&& h.pre_get_layer()
    &&& h.pre_get_systems()
    &&& h.pre_get_domain()
}

impl SpecHandlerKind {
    /// Whether every reading of the handler is defined.
    pub fn readable(&self) -> (r: bool)
        ensures
            r == fully_readable(*self),
    {
        match self {
            SpecHandlerKind::OpenAPIv3(h) => check_v3_readable(&h.spec),
            SpecHandlerKind::AsyncAPIv1(h) => check_async_readable(h.spec.as_str(), true),
            SpecHandlerKind::AsyncAPIv2(h) => check_async_readable(h.spec.as_str(), false),
        }
    }
}

/// A specification found in a catalog.
#[derive(Debug, Clone)]
pub struct SpecItem {
    pub spec_type: SpecType,
    pub handler: SpecHandlerKind,
    pub path: String,
    pub catalog_id: String,
    pub catalog_dir: String,
}

/// `catalog_dir` is, by its UTF-8 length, a prefix position of `spec_path`
/// that falls on a character boundary (slicing there does not panic).
pub open spec fn relative_path_defined(spec_path: Seq<char>, catalog_dir: Seq<char>) -> bool {
    let bytes = encode_utf8(spec_path);
    let n = encode_utf8(catalog_dir).len();
    n <= bytes.len() && is_char_boundary(bytes, n as int)
}

/// The bytes of `spec_path` after the first `len(catalog_dir)` bytes.
pub open spec fn relative_path_bytes(spec_path: Seq<char>, catalog_dir: Seq<char>) -> Seq<u8> {
    let bytes = encode_utf8(spec_path);
    bytes.subrange(encode_utf8(catalog_dir).len() as int, bytes.len() as int)
}

/// Whether `extact_relative_path` can cut `spec_path` after as many bytes as
/// `catalog_dir_srt` has.
pub fn relative_path_ok(spec_path: &String, catalog_dir_srt: &String) -> (r: bool)
    ensures
        r == relative_path_defined(spec_path@, catalog_dir_srt@),
{
    let n = catalog_dir_srt.as_str().as_bytes().len();
    let path = spec_path.as_str();
    n <= path.as_bytes().len() && path.is_char_boundary(n)
}

/// The path of a spec relative to its catalog directory: `spec_path` without
/// as many leading bytes as `catalog_dir` has.
pub fn extact_relative_path<'a>(spec_path: &'a String, catalog_dir_srt: &'a String) -> (r: &'a str)
    requires
        relative_path_defined(spec_path@, catalog_dir_srt@),
    ensures
        r.spec_bytes() == relative_path_bytes(spec_path@, catalog_dir_srt@),
        r@ == decode_utf8(relative_path_bytes(spec_path@, catalog_dir_srt@)),
{
    let catalog_dir = catalog_dir_srt.as_str().as_bytes().len();
    let (_, short_path) = spec_path.as_str().split_at(catalog_dir);
    proof {
        encode_utf8_decode_utf8(short_path@);
    }
    short_path
}

/// The UTF-8 encoding of two texts one after the other is the encoding of
/// the first followed by that of the second.
pub proof fn lemma_encode_utf8_concat(a: Seq<char>, b: Seq<char>)
    ensures
        encode_utf8(a + b) == encode_utf8(a) + encode_utf8(b),
    decreases a.len(),
{
    if a.len() == 0 {
        assert(a + b =~= b);
        assert(encode_utf8(a) + encode_utf8(b) =~= encode_utf8(b));
    } else {
        assert((a + b)[0] == a[0]);
        assert((a + b).drop_first() =~= a.drop_first() + b);
        lemma_encode_utf8_concat(a.drop_first(), b);
        assert(encode_utf8(a + b) =~= encode_utf8(a) + encode_utf8(b));
    }
}

proof fn lemma_boundary_after_prefix(a: Seq<char>, b: Seq<char>)
    ensures
        is_char_boundary(encode_utf8(a + b), encode_utf8(a).len() as int),
    decreases a.len(),
{
    let bytes = encode_utf8(a + b);
    encode_utf8_valid_utf8(a + b);
    if a.len() > 0 {
        encode_utf8_first_scalar(a + b);
        assert((a + b)[0] == a[0]);
        assert((a + b).drop_first() =~= a.drop_first() + b);
        assert(pop_first_scalar(bytes) =~= encode_utf8(a.drop_first() + b));
        assert(encode_utf8(a).len() == encode_scalar(a[0] as u32).len() + encode_utf8(a.drop_first()).len());
        lemma_boundary_after_prefix(a.drop_first(), b);
    }
}

/// For a spec inside the catalog directory, the relative path is what
/// follows the directory: when `spec_path` is `catalog_dir` followed by
/// `rest`, the path can be cut there and the relative path is `rest`.
pub proof fn law_relative_path_is_the_rest(spec_path: Seq<char>, catalog_dir: Seq<char>, rest: Seq<char>)
    requires
        spec_path == catalog_dir + rest,
    ensures
        relative_path_defined(spec_path, catalog_dir),
        decode_utf8(relative_path_bytes(spec_path, catalog_dir)) == rest,
{
    lemma_encode_utf8_concat(catalog_dir, rest);
    lemma_boundary_after_prefix(catalog_dir, rest);
    let bytes = encode_utf8(spec_path);
    assert(bytes.subrange(encode_utf8(catalog_dir).len() as int, bytes.len() as int) =~= encode_utf8(rest));
    encode_utf8_decode_utf8(rest);
}

impl SpecItem {
    /// The item is consistent: its format is the one its handler reads.
    pub open spec fn well_formed(&self) -> bool {
        self.spec_type == self.handler.format()
    }

    pub fn get_file_path(&self) -> (r: &str)
        ensures
            r@ == self.path@,
    {
        self.path.as_str()
    }

    pub fn get_catalog_id(&self) -> (r: &str)
        ensures
            r@ == self.catalog_id@,
    {
        self.catalog_id.as_str()
    }

    pub fn get_catalog_dir(&self) -> (r: &str)
        ensures
            r@ == self.catalog_dir@,
    {
        self.catalog_dir.as_str()
    }

    pub fn get_version(&self) -> (r: String)
        requires
            self.handler.pre_get_version(),
        ensures
            r@ == self.handler.version_text(),
    {
        self.handler.get_version()
    }

    pub fn get_title(&self) -> (r: String)
        requires
            self.handler.pre_get_title(),
        ensures
            r@ == self.handler.title_text(),
    {
        self.handler.get_title()
    }

    pub fn get_description(&self) -> (r: String)
        requires
            self.handler.pre_get_description(),
        ensures
            r@ == self.handler.description_text(),
    {
        self.handler.get_description()
    }

    pub fn get_paths_len(&self) -> (r: usize)
        requires
            self.handler.pre_get_paths_len(),
        ensures
            r == self.handler.paths_count(),
    {
        self.handler.get_paths_len()
    }

    pub fn get_paths(&self) -> (r: Vec<Path>)
        requires
            self.handler.pre_get_paths(),
        ensures
            paths_view(r@) == self.handler.paths_list(),
    {
        self.handler.get_paths()
    }

    pub fn get_audience(&self) -> (r: String)
        requires
            self.handler.pre_get_audience(),
        ensures
            r@ == self.handler.audience_text(),
    {
        self.handler.get_audience()
    }

    pub fn get_api_id(&self) -> (r: String)
        requires
            self.handler.pre_get_api_id(),
        ensures
            r@ == self.handler.api_id_text(),
    {
        self.handler.get_api_id()
    }

    pub fn get_layer(&self) -> (r: String)
        requires
            self.handler.pre_get_layer(),
        ensures
            r@ == self.handler.layer_text(),
    {
        self.handler.get_layer()
    }

    pub fn get_systems(&self) -> (r: Vec<String>)
        requires
            self.handler.pre_get_systems(),
        ensures
            r@.map_values(|s: String| s@) == self.handler.systems_list(),
    {
        self.handler.get_systems()
    }

    pub fn get_domain(&self) -> (r: String)
        requires
            self.handler.pre_get_domain(),
        ensures
            r@ == self.handler.domain_text(),
    {
        self.handler.get_domain()
    }

    /// The path of the spec relative to its catalog directory.
    pub fn get_spec_short_path(&self) -> (r: &str)
        requires
            relative_path_defined(self.path@, self.catalog_dir@),
        ensures
            r.spec_bytes() == relative_path_bytes(self.path@, self.catalog_dir@),
            r@ == decode_utf8(relative_path_bytes(self.path@, self.catalog_dir@)),
    {
        extact_relative_path(&self.path, &self.catalog_dir)
    }

    pub fn get_spec_type(&self) -> (r: SpecType)
        ensures
            r == self.spec_type,
    {
        self.spec_type
    }
}

/// The pattern that recognises format `i` (OpenAPI 3, AsyncAPI 1, AsyncAPI 2, proto3).
pub open spec fn format_pattern(i: int) -> Seq<char> {
    if i == 0 {
        "openapi:\\W*3"@
    } else if i == 1 {
        "asyncapi:\\W*1"@
    } else if i == 2 {
        "asyncapi:\\W*2"@
    } else {
        "syntax=.proto3"@
    }
}

/// The first format whose pattern is found in the text.
pub open spec fn detected_format(text: Seq<char>) -> Option<usize> {
    if regex_finds(format_pattern(0), text) {
        Some(0)
    } else if regex_finds(format_pattern(1), text) {
        Some(1)
    } else if regex_finds(format_pattern(2), text) {
        Some(2)
    } else if regex_finds(format_pattern(3), text) {
        Some(3)
    } else {
        None
    }
}

/// Finds the first format whose pattern occurs in the text.
pub fn detect_format(spec: &str) -> (r: Option<usize>)
    ensures
        r == detected_format(spec@),
{
    if regex_is_match("openapi:\\W*3", spec) {
        Some(0)
    } else if regex_is_match("asyncapi:\\W*1", spec) {
        Some(1)
    } else if regex_is_match("asyncapi:\\W*2", spec) {
        Some(2)
    } else if regex_is_match("syntax=.proto3", spec) {
        Some(3)
    } else {
        None
    }
}

/// What `from_str` returns for a text whose detected format is `format`.
pub open spec fn from_str_outcome(
    r: Result<SpecItem, String>,
    path: String,
    catalog_id: String,
    catalog_dir: String,
    text: Seq<char>,
    format: Option<usize>,
) -> bool {
    match format {
        Some(0) => match openapi_document(text) {
            Some(doc) => r matches Ok(item) && item.path == path && item.catalog_id == catalog_id
                && item.catalog_dir == catalog_dir && item.spec_type == SpecType::OpenAPIv3
                && item.handler == SpecHandlerKind::OpenAPIv3(V3 { spec: doc }),
            None => r matches Err(e) && e@ == "Unable to parse file ["@ + debug_text(path@) + "] - reason ["@
                + debug_text("Unable to parse content"@) + "]"@,
        },
        Some(1) => r matches Ok(item) && {
            &&& item.path == path
            &&& item.catalog_id == catalog_id
            &&& item.catalog_dir == catalog_dir
            &&& item.spec_type == SpecType::AsyncAPIv1
            &&& (item.handler matches SpecHandlerKind::AsyncAPIv1(h) && h.spec@ == text)
        },
        Some(2) => r matches Ok(item) && {
            &&& item.path == path
            &&& item.catalog_id == catalog_id
            &&& item.catalog_dir == catalog_dir
            &&& item.spec_type == SpecType::AsyncAPIv2
            &&& (item.handler matches SpecHandlerKind::AsyncAPIv2(h) && h.spec@ == text)
        },
        Some(_) => r matches Err(e) && e@ == "Content for spec  ["@ + debug_text(path@)
            + "] does not match any of the support spec format"@,
        None => r matches Err(e) && e@ == "Unable to parse content for path "@ + debug_text(path@),
    }
}

/// The message `from_str` fails with for a text, or `None` when it succeeds.
pub open spec fn from_str_error(path: Seq<char>, text: Seq<char>) -> Option<Seq<char>> {
    match detected_format(text) {
        Some(0) => match openapi_document(text) {
            Some(_) => None,
            None => Some("Unable to parse file ["@ + debug_text(path) + "] - reason ["@
                + debug_text("Unable to parse content"@) + "]"@),
        },
        Some(1) => None,
        Some(2) => None,
        Some(_) => Some("Content for spec  ["@ + debug_text(path) + "] does not match any of the support spec format"@),
        None => Some("Unable to parse content for path "@ + debug_text(path)),
    }
}

/// Builds the spec item for a text whose format has been detected.
pub fn spec_item_from_format(
    path: String,
    catalog_id: String,
    catalog_dir: String,
    spec: &str,
    format: Option<usize>,
) -> (r: Result<SpecItem, String>)
    ensures
        from_str_outcome(r, path, catalog_id, catalog_dir, spec@, format),
        r matches Ok(item) ==> item.well_formed(),
{
    match format {
        Some(0) => match V3::new(spec) {
            Ok(v3) => Ok(
                SpecItem {
                    spec_type: SpecType::OpenAPIv3,
                    handler: SpecHandlerKind::OpenAPIv3(v3),
                    path,
                    catalog_id,
                    catalog_dir,
                },
            ),
            Err(why) => {
                let mut message = "Unable to parse file [".to_owned();
                message.append(debug_string(path.as_str()).as_str());
                message.append("] - reason [");
                message.append(debug_string(why.as_str()).as_str());
                message.append("]");
                Err(message)
            },
        },
        Some(1) => match V1::new(spec) {
            Ok(v1) => Ok(
                SpecItem {
                    spec_type: SpecType::AsyncAPIv1,
                    handler: SpecHandlerKind::AsyncAPIv1(v1),
                    path,
                    catalog_id,
                    catalog_dir,
                },
            ),
            Err(why) => {
                proof {
                    assert(false);
                }
                Err(why)
            },
        },
        Some(2) => match V2::new(spec) {
            Ok(v2) => Ok(
                SpecItem {
                    spec_type: SpecType::AsyncAPIv2,
                    handler: SpecHandlerKind::AsyncAPIv2(v2),
                    path,
                    catalog_id,
                    catalog_dir,
                },
            ),
            Err(why) => {
                proof {
                    assert(false);
                }
                Err(why)
            },
        },
        Some(_) => {
            let mut message = "Content for spec  [".to_owned();
            message.append(debug_string(path.as_str()).as_str());
            message.append("] does not match any of the support spec format");
            Err(message)
        },
        None => {
            let mut message = "Unable to parse content for path ".to_owned();
            message.append(debug_string(path.as_str()).as_str());
            Err(message)
        },
    }
}

/// Reads a specification: its format is the first of OpenAPI 3, AsyncAPI 1,
/// AsyncAPI 2 and proto3 whose pattern occurs in the text; proto3 and
/// unrecognised texts are refused, and so is an OpenAPI text that does not
/// parse.
pub fn from_str(path: String, catalog_id: String, catalog_dir: String, spec: &str) -> (r: Result<SpecItem, String>)
    ensures
        from_str_outcome(r, path, catalog_id, catalog_dir, spec@, detected_format(spec@)),
        r matches Ok(item) ==> item.well_formed(),
        match r {
            Ok(_) => from_str_error(path@, spec@) is None,
            Err(e) => from_str_error(path@, spec@) == Some(e@),
        },
{
    let format = detect_format(spec);
    spec_item_from_format(path, catalog_id, catalog_dir, spec, format)
}


/// The format of a read specification follows its declared version: a text
/// that declares `openapi: 3` and parses is read as OpenAPI v3; otherwise a
/// text that declares `asyncapi: 1` is read as AsyncAPI v1 by the v1
/// handler, and otherwise one that declares `asyncapi: 2` is read as
/// AsyncAPI v2 by the v2 handler; a proto3 text, or a text that declares
/// none of them, is refused. `r` is what `from_str` returns for the text.
pub proof fn law_format_follows_declared_version(
    r: Result<SpecItem, String>,
    path: String,
    catalog_id: String,
    catalog_dir: String,
    t: Seq<char>,
)
    requires
        from_str_outcome(r, path, catalog_id, catalog_dir, t, detected_format(t)),
    ensures
        regex_finds("openapi:\\W*3"@, t) && openapi_document(t) is Some ==> (r matches Ok(item)
            && item.spec_type == SpecType::OpenAPIv3 && item.handler is OpenAPIv3),
        !regex_finds("openapi:\\W*3"@, t) && regex_finds("asyncapi:\\W*1"@, t) ==> (r matches Ok(item)
            && item.spec_type == SpecType::AsyncAPIv1 && item.handler is AsyncAPIv1),
        !regex_finds("openapi:\\W*3"@, t) && !regex_finds("asyncapi:\\W*1"@, t) && regex_finds("asyncapi:\\W*2"@, t)
            ==> (r matches Ok(item) && item.spec_type == SpecType::AsyncAPIv2 && item.handler is AsyncAPIv2),
        !regex_finds("openapi:\\W*3"@, t) && !regex_finds("asyncapi:\\W*1"@, t) && !regex_finds("asyncapi:\\W*2"@, t)
            ==> r is Err,
        r matches Ok(item) ==> item.spec_type == item.handler.format(),
{
}

/// The domain of an OpenAPI specification is what follows the scheme and
/// host of its first server URL (the second group of
/// `(http[s]?://[a-z]*)(.*)`), the whole URL when that pattern does not
/// match it, and a notice when the document declares no server.
pub proof fn law_openapi_domain_is_the_path_of_the_first_server(h: SpecHandlerKind)
    requires
        h is OpenAPIv3,
    ensures
        ({
            let doc = h->OpenAPIv3_0.spec;
            h.domain_text() == if doc.servers@.len() == 0 {
                "NA - servers attribute not specified"@
            } else {
                match regex_group("(http[s]?://[a-z]*)(.*)"@, doc.servers@[0]@, 2) {
                    Some(rest) => rest,
                    None => doc.servers@[0]@,
                }
            }
        }),
{
}

/// The layer of an OpenAPI specification does not depend on the case in
/// which its `x-layer` is written: two documents whose `x-layer` texts have
/// the same lower case have the same layer, and that layer is in lower case
/// form (what `to_lowercase` gives).
pub proof fn law_openapi_layer_ignores_case(a: SpecHandlerKind, b: SpecHandlerKind, ta: Seq<char>, tb: Seq<char>)
    requires
        a is OpenAPIv3,
        b is OpenAPIv3,
        extension_lookup(a->OpenAPIv3_0.spec.extensions@, "x-layer"@) matches Some(e) && e.text matches Some(x) && x@ == ta,
        extension_lookup(b->OpenAPIv3_0.spec.extensions@, "x-layer"@) matches Some(e) && e.text matches Some(x) && x@ == tb,
        lowercase_text(ta) == lowercase_text(tb),
    ensures
        a.layer_text() == b.layer_text(),
        a.layer_text() == lowercase_text(ta),
{
}


/// The endpoints of an OpenAPI specification are its paths that are items,
/// one each, every one listing all the operations of its item (GET, PUT,
/// POST, DELETE, OPTIONS, HEAD, PATCH) and nothing else.
pub proof fn law_openapi_endpoints_list_every_operation(h: SpecHandlerKind)
    requires
        h is OpenAPIv3,
    ensures
        h.paths_list().len() == items_held(h->OpenAPIv3_0.spec.paths@),
        h.paths_count() == h->OpenAPIv3_0.spec.paths@.len(),
        forall|k: int| 0 <= k < h.paths_list().len() ==> #[trigger] endpoint_of_some_item(h->OpenAPIv3_0.spec.paths@, h.paths_list()[k]),
{
    law_every_path_lists_its_operations(h->OpenAPIv3_0.spec.paths@);
}

} // verus!
