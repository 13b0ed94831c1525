use vstd::prelude::*;

verus! {

/// Either a reference string (`#/components/<category>/<name>`) or a literal item.
#[derive(Clone, Debug)]
pub enum RefOr<T> {
    Reference(String),
    Item(T),
}

/// Where a parameter is carried in a request.
#[derive(Clone, Copy, Debug, PartialEq, Eq, Structural)]
pub enum ParameterLocation {
    Path,
    Query,
    Header,
    Cookie,
}

#[derive(Clone, Debug)]
pub struct Parameter {
    pub name: String,
    pub location: ParameterLocation,
}

/// A request body: the media types it declares, in declaration order, and whether
/// it is mandatory.
#[derive(Clone, Debug)]
pub struct RequestBody {
    pub content: Vec<String>,
    pub required: bool,
}

/// A reusable schema, kept as its JSON text; the generator does not interpret it.
#[derive(Clone, Debug)]
pub struct Schema {
    pub definition: String,
}

/// The reusable definitions of a document, each table in declaration order.
/// Names are looked up from the front: where a name occurs twice, the first
/// entry wins.
#[derive(Clone, Debug)]
pub struct Components {
    pub parameters: Vec<(String, RefOr<Parameter>)>,
    pub request_bodies: Vec<(String, RefOr<RequestBody>)>,
    pub schemas: Vec<(String, RefOr<Schema>)>,
}

#[derive(Clone, Debug)]
pub struct Operation {
    pub operation_id: Option<String>,
    pub parameters: Vec<RefOr<Parameter>>,
    pub request_body: Option<RefOr<RequestBody>>,
    pub tags: Vec<String>,
}

/// The operations of one path template, for the methods that are modelled.
#[derive(Clone, Debug)]
pub struct PathItem {
    pub get: Option<Operation>,
    pub post: Option<Operation>,
    pub put: Option<Operation>,
}

/// An API description: its path table in declaration order and its optional
/// components section.
#[derive(Clone, Debug)]
pub struct Document {
    pub paths: Vec<(String, RefOr<PathItem>)>,
    pub components: Option<Components>,
}

#[derive(Clone, Copy, Debug, PartialEq, Eq, Structural)]
pub enum HttpMethod {
    Get,
    Post,
    Put,
}

/// The routing function name of a method, as the router source spells it.
pub open spec fn method_name(m: HttpMethod) -> Seq<char> {
    match m {
        HttpMethod::Get => seq!['g', 'e', 't'],
        HttpMethod::Post => seq!['p', 'o', 's', 't'],
        HttpMethod::Put => seq!['p', 'u', 't'],
    }
}

impl HttpMethod {
    /// The lower-case name of the method.
    pub fn as_lowercase(&self) -> (r: &'static str)
        ensures
            r@ == method_name(*self),
    {
        match self {
            HttpMethod::Get => {
                proof {
                    reveal_strlit("get");
                }
                "get"
            },
            HttpMethod::Post => {
                proof {
                    reveal_strlit("post");
                }
                "post"
            },
            HttpMethod::Put => {
                proof {
                    reveal_strlit("put");
                }
                "put"
            },
        }
    }
}

} // verus!
