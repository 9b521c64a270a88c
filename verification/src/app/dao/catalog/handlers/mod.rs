//! What every specification format offers to the catalog.
pub mod implem;

use vstd::prelude::*;

verus! {

/// The supported specification formats.
#[derive(Debug, Clone, Copy, PartialEq, Eq, Structural)]
pub enum SpecType {
    OpenAPIv3,
    AsyncAPIv1,
    AsyncAPIv2,
    Proto3,
}

/// The name under which a format is displayed.
pub open spec fn spec_type_name(t: SpecType) -> Seq<char> {
    match t {
        SpecType::OpenAPIv3 => "OpenAPI.v3"@,
        SpecType::AsyncAPIv1 => "AsyncAPI.v1"@,
        SpecType::AsyncAPIv2 => "AsyncAPI.v2"@,
        SpecType::Proto3 => "Proto3"@,
    }
}

impl SpecType {
    /// The display name of the format.
    pub fn name(&self) -> (r: &'static str)
        ensures
            r@ == spec_type_name(*self),
    {
        match self {
            SpecType::OpenAPIv3 => "OpenAPI.v3",
            SpecType::AsyncAPIv1 => "AsyncAPI.v1",
            SpecType::AsyncAPIv2 => "AsyncAPI.v2",
            SpecType::Proto3 => "Proto3",
        }
    }
}

/// An operation of a path (or of a channel).
#[derive(Debug)]
pub struct Method {
    pub method: String,
    pub description: String,
    pub summary: String,
}

/// The plain content of a `Method`.
pub struct MethodView {
    pub method: Seq<char>,
    pub description: Seq<char>,
    pub summary: Seq<char>,
}

impl View for Method {
    type V = MethodView;

    open spec fn view(&self) -> MethodView {
        MethodView { method: self.method@, description: self.description@, summary: self.summary@ }
    }
}

/// A path (an endpoint, or a topic of an event API) with its operations.
#[derive(Debug)]
pub struct Path {
    pub path: String,
    pub methods: Vec<Method>,
}

/// The plain content of a `Path`.
pub struct PathView {
    pub path: Seq<char>,
    pub methods: Seq<MethodView>,
}

impl View for Path {
    type V = PathView;

    open spec fn view(&self) -> PathView {
        PathView { path: self.path@, methods: self.methods@.map_values(|m: Method| m@) }
    }
}

/// The plain content of a list of paths.
pub open spec fn paths_view(paths: Seq<Path>) -> Seq<PathView> {
    paths.map_values(|p: Path| p@)
}

/// What the catalog reads from a specification, whatever its format. Each
/// reading has a condition under which it is defined (the format may
/// require some attribute to have a given shape).
pub trait SpecHandler {
    spec fn pre_get_version(&self) -> bool;

    spec fn pre_get_title(&self) -> bool;

    spec fn pre_get_description(&self) -> bool;

    spec fn pre_get_paths_len(&self) -> bool;

    spec fn pre_get_paths(&self) -> bool;

    spec fn pre_get_audience(&self) -> bool;

    spec fn pre_get_api_id(&self) -> bool;

    spec fn pre_get_layer(&self) -> bool;

    spec fn pre_get_systems(&self) -> bool;

    spec fn pre_get_domain(&self) -> bool;

    fn get_version(&self) -> String
        requires
            self.pre_get_version(),
    ;

    fn get_title(&self) -> String
        requires
            self.pre_get_title(),
    ;

    fn get_description(&self) -> String
        requires
            self.pre_get_description(),
    ;

    fn get_paths_len(&self) -> usize
        requires
            self.pre_get_paths_len(),
    ;

    fn get_paths(&self) -> Vec<Path>
        requires
            self.pre_get_paths(),
    ;

    fn get_audience(&self) -> String
        requires
            self.pre_get_audience(),
    ;

    fn get_api_id(&self) -> String
        requires
            self.pre_get_api_id(),
    ;

    fn get_layer(&self) -> String
        requires
            self.pre_get_layer(),
    ;

    fn get_systems(&self) -> Vec<String>
        requires
            self.pre_get_systems(),
    ;

    fn get_domain(&self) -> String
        requires
            self.pre_get_domain(),
    ;
}

} // verus!
