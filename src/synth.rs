use crate::collect::{strings_view, HandlerDescription, HandlerView};
use crate::model::{method_name, HttpMethod};
use crate::naming::{adjust_content_type, adjusted_content_type};
use vstd::prelude::*;
use vstd::string::*;

verus! {

/// The texts of `parts` in order, separated by `sep`.
pub open spec fn joined(parts: Seq<Seq<char>>, sep: Seq<char>) -> Seq<char>
    decreases parts.len(),
{
    if parts.len() == 0 {
        seq![]
    } else if parts.len() == 1 {
        parts[0]
    } else {
        joined(parts.drop_last(), sep) + sep + parts.last()
    }
}

/// The texts of `parts` one after the other.
pub open spec fn concat_all(parts: Seq<Seq<char>>) -> Seq<char>
    decreases parts.len(),
{
    if parts.len() == 0 {
        seq![]
    } else {
        concat_all(parts.drop_last()) + parts.last()
    }
}

pub fn join(parts: &Vec<String>, sep: &str) -> (r: String)
    ensures
        r@ == joined(strings_view(parts@), sep@),
{
    let mut r = String::new();
    let mut i: usize = 0;
    while i < parts.len()
        invariant
            i <= parts@.len(),
            r@ == joined(strings_view(parts@.subrange(0, i as int)), sep@),
        decreases parts@.len() - i,
    {
        let ghost next = strings_view(parts@.subrange(0, i + 1));
        assert(next.drop_last() =~= strings_view(parts@.subrange(0, i as int)));
        if i > 0 {
            r.append(sep);
        } else {
            assert(r@ =~= seq![]);
        }
        r.append(parts[i].as_str());
        i = i + 1;
    }
    assert(parts@.subrange(0, parts@.len() as int) =~= parts@);
    r
}

/// A path extractor argument for each path parameter.
pub open spec fn path_args(params: Seq<Seq<char>>) -> Seq<char> {
    joined(params.map_values(|p: Seq<char>| "Path("@ + p + "): Path<String>"@), ", "@)
}

/// The body argument: mandatory when the body is required.
pub open spec fn body_arg(required: bool) -> Seq<char> {
    if required {
        "Json(body): Json<Value>"@
    } else {
        "body: Option<Json<Value>>"@
    }
}

/// The names of the stubs of a description: its operation id when it has no
/// request body, else one `<id>_<media type>` per media type of the body.
pub open spec fn handler_names(h: HandlerView) -> Seq<Seq<char>> {
    match h.body {
        None => seq![h.operation_id],
        Some(b) => b.0.map_values(
            |ct: Seq<char>| h.operation_id + "_"@ + adjusted_content_type(ct),
        ),
    }
}

/// The argument list of a stub.
pub open spec fn stub_args(h: HandlerView) -> Seq<char> {
    match h.body {
        None => path_args(h.path_params),
        Some(b) => if h.path_params.len() == 0 {
            body_arg(b.1)
        } else {
            path_args(h.path_params) + ", "@ + body_arg(b.1)
        },
    }
}

/// The fields that a stub's response echoes after its fixed message.
pub open spec fn stub_echo(h: HandlerView) -> Seq<char> {
    let params = ", \"params\": ["@ + joined(h.path_params, ", "@) + "]"@;
    let body = ", \"body\": format!(\"{:?}\", body)"@;
    match h.body {
        None => params,
        Some(_) => if h.path_params.len() == 0 {
            body
        } else {
            params + body
        },
    }
}

/// The source of one stub.
pub open spec fn stub_text(h: HandlerView, name: Seq<char>) -> Seq<char> {
    "pub async fn "@ + name + "("@ + stub_args(h) + ") -> impl IntoResponse {\n"@
        + "    Json(json!({ \"message\": \"generated with love\""@ + stub_echo(h)
        + " }))\n}\n"@
}

/// The stubs of a description, one after the other.
pub open spec fn handlers_text(h: HandlerView) -> Seq<char> {
    concat_all(handler_names(h).map_values(|n: Seq<char>| stub_text(h, n)))
}

/// A routing key with the stub registered under it.
#[derive(Clone, Debug)]
pub struct RouteEntry {
    pub path: String,
    pub method: HttpMethod,
    pub handler: String,
}

pub type RouteView = (Seq<char>, HttpMethod, Seq<char>);

pub open spec fn route_view(e: RouteEntry) -> RouteView {
    (e.path@, e.method, e.handler@)
}

pub open spec fn routes_view(v: Seq<RouteEntry>) -> Seq<RouteView> {
    v.map_values(|e: RouteEntry| route_view(e))
}

/// The routing keys of a description: one per stub, all on its path and method.
pub open spec fn handler_routes(h: HandlerView) -> Seq<RouteView> {
    handler_names(h).map_values(|n: Seq<char>| (h.path, h.method, n))
}

fn path_args_text(params: &Vec<String>) -> (r: String)
    ensures
        r@ == path_args(strings_view(params@)),
{
    let mut parts: Vec<String> = Vec::new();
    let mut i: usize = 0;
    while i < params.len()
        invariant
            i <= params@.len(),
            strings_view(parts@) == strings_view(params@.subrange(0, i as int)).map_values(
                |p: Seq<char>| "Path("@ + p + "): Path<String>"@,
            ),
        decreases params@.len() - i,
    {
        let mut a = "Path(".to_owned();
        a.append(params[i].as_str());
        a.append("): Path<String>");
        let ghost before = parts@;
        parts.push(a);
        assert(strings_view(parts@) =~= strings_view(before).push(a@));
        assert(strings_view(parts@) =~= strings_view(params@.subrange(0, i + 1)).map_values(
            |p: Seq<char>| "Path("@ + p + "): Path<String>"@,
        ));
        i = i + 1;
    }
    assert(params@.subrange(0, params@.len() as int) =~= params@);
    join(&parts, ", ")
}

fn stub(hd: &HandlerDescription, name: &str) -> (r: String)
    ensures
        r@ == stub_text(hd@, name@),
{
    let mut args = String::new();
    let mut echo = ", \"params\": [".to_owned();
    echo.append(join(&hd.path_params, ", ").as_str());
    echo.append("]");
    match &hd.request_body {
        None => {
            args.append(path_args_text(&hd.path_params).as_str());
        },
        Some(b) => {
            let body_arg = if b.required {
                "Json(body): Json<Value>"
            } else {
                "body: Option<Json<Value>>"
            };
            if hd.path_params.len() == 0 {
                args.append(body_arg);
                echo = String::new();
            } else {
                args.append(path_args_text(&hd.path_params).as_str());
                args.append(", ");
                args.append(body_arg);
            }
            echo.append(", \"body\": format!(\"{:?}\", body)");
        },
    }
    let mut r = "pub async fn ".to_owned();
    r.append(name);
    r.append("(");
    r.append(args.as_str());
    r.append(") -> impl IntoResponse {\n");
    r.append("    Json(json!({ \"message\": \"generated with love\"");
    r.append(echo.as_str());
    r.append(" }))\n}\n");
    assert(args@ =~= stub_args(hd@));
    assert(echo@ =~= stub_echo(hd@));
    r
}


/// The stubs of one description and their routing keys: one stub named after the
/// operation when it has no request body, else one per media type of the body.
pub fn generate_content_handlers(hd: &HandlerDescription) -> (r: (Vec<RouteEntry>, String))
    ensures
        routes_view(r.0@) == handler_routes(hd@),
        r.1@ == handlers_text(hd@),
{
    let mut routes: Vec<RouteEntry> = Vec::new();
    let mut text = String::new();
    match &hd.request_body {
        None => {
            let name = hd.operation_id.clone();
            assert(text@ =~= Seq::<char>::empty());
            text.append(stub(hd, name.as_str()).as_str());
            routes.push(RouteEntry { path: hd.path.clone(), method: hd.method, handler: name });
            assert(routes_view(routes@) =~= handler_routes(hd@));
            let ghost names = handler_names(hd@).map_values(|n: Seq<char>| stub_text(hd@, n));
            assert(names.drop_last() =~= Seq::<Seq<char>>::empty());
            assert(names.len() == 1 && names.last() == stub_text(hd@, name@));
            assert(concat_all(names.drop_last()) =~= Seq::<char>::empty());
            assert(text@ =~= handlers_text(hd@));
        },
        Some(b) => {
            let mut i: usize = 0;
            while i < b.content.len()
                invariant
                    hd.request_body == Some(*b),
                    i <= b.content@.len(),
                    routes_view(routes@) == handler_routes(hd@).subrange(0, i as int),
                    text@ == concat_all(
                        handler_names(hd@).map_values(|n: Seq<char>| stub_text(hd@, n)).subrange(
                            0,
                            i as int,
                        ),
                    ),
                decreases b.content@.len() - i,
            {
                let mut name = hd.operation_id.clone();
                name.append("_");
                name.append(adjust_content_type(b.content[i].as_str()).as_str());
                let ghost stubs = handler_names(hd@).map_values(
                    |n: Seq<char>| stub_text(hd@, n),
                );
                assert(stubs.subrange(0, i + 1).drop_last() =~= stubs.subrange(0, i as int));
                assert(name@ == handler_names(hd@)[i as int]);
                text.append(stub(hd, name.as_str()).as_str());
                let ghost before = routes@;
                routes.push(RouteEntry { path: hd.path.clone(), method: hd.method, handler: name });
                assert(routes_view(routes@) =~= routes_view(before).push(
                    (hd@.path, hd@.method, handler_names(hd@)[i as int]),
                ));
                assert(routes_view(routes@) =~= handler_routes(hd@).subrange(0, i + 1));
                i = i + 1;
            }
            assert(handler_routes(hd@).subrange(0, i as int) =~= handler_routes(hd@));
            let ghost stubs = handler_names(hd@).map_values(|n: Seq<char>| stub_text(hd@, n));
            assert(stubs.subrange(0, i as int) =~= stubs);
        },
    }
    (routes, text)
}

/// The declarations every handler module starts with.
pub open spec fn handlers_prelude() -> Seq<char> {
    "use axum::response::IntoResponse;\nuse axum::extract::{Path, Json};\nuse serde_json::{json, Value};\n"@
}

pub open spec fn descriptions_view(hds: Seq<HandlerDescription>) -> Seq<HandlerView> {
    hds.map_values(|h: HandlerDescription| h@)
}

/// The routing keys of a list of descriptions, in order.
pub open spec fn all_routes(hs: Seq<HandlerView>) -> Seq<RouteView>
    decreases hs.len(),
{
    if hs.len() == 0 {
        seq![]
    } else {
        all_routes(hs.drop_last()) + handler_routes(hs.last())
    }
}

/// The handler module of a list of descriptions.
pub open spec fn handlers_module(hs: Seq<HandlerView>) -> Seq<char> {
    handlers_prelude() + concat_all(hs.map_values(|h: HandlerView| handlers_text(h)))
}

/// The handler module of a tag and its routing keys.
pub fn generate_handlers(hds: &Vec<HandlerDescription>) -> (r: (Vec<RouteEntry>, String))
    ensures
        routes_view(r.0@) == all_routes(descriptions_view(hds@)),
        r.1@ == handlers_module(descriptions_view(hds@)),
{
    let mut routes: Vec<RouteEntry> = Vec::new();
    let mut body = String::new();
    let mut i: usize = 0;
    while i < hds.len()
        invariant
            i <= hds@.len(),
            routes_view(routes@) == all_routes(descriptions_view(hds@.subrange(0, i as int))),
            body@ == concat_all(
                descriptions_view(hds@.subrange(0, i as int)).map_values(
                    |h: HandlerView| handlers_text(h),
                ),
            ),
        decreases hds@.len() - i,
    {
        let ghost next = descriptions_view(hds@.subrange(0, i + 1));
        assert(next.drop_last() =~= descriptions_view(hds@.subrange(0, i as int)));
        assert(next.map_values(|h: HandlerView| handlers_text(h)).drop_last()
            =~= descriptions_view(hds@.subrange(0, i as int)).map_values(
            |h: HandlerView| handlers_text(h),
        ));
        let (rs, text) = generate_content_handlers(&hds[i]);
        body.append(text.as_str());
        let ghost before = routes@;
        let mut j: usize = 0;
        while j < rs.len()
            invariant
                j <= rs@.len(),
                routes_view(routes@) == routes_view(before) + routes_view(rs@).subrange(0, j as int),
            decreases rs@.len() - j,
        {
            let e = RouteEntry {
                path: rs[j].path.clone(),
                method: rs[j].method,
                handler: rs[j].handler.clone(),
            };
            let ghost mid = routes@;
            routes.push(e);
            assert(routes_view(routes@) =~= routes_view(mid).push(route_view(e)));
            assert(routes_view(routes@) =~= routes_view(before) + routes_view(rs@).subrange(
                0,
                j + 1,
            ));
            j = j + 1;
        }
        assert(routes_view(rs@).subrange(0, rs@.len() as int) =~= routes_view(rs@));
        assert(routes_view(routes@) =~= all_routes(next));
        i = i + 1;
    }
    assert(hds@.subrange(0, hds@.len() as int) =~= hds@);
    let mut r = String::new();
    r.append(
        "use axum::response::IntoResponse;\nuse axum::extract::{Path, Json};\nuse serde_json::{json, Value};\n",
    );
    r.append(body.as_str());
    (routes, r)
}


pub open spec fn route_line(name: Seq<char>, r: RouteView) -> Seq<char> {
    "\n        .route(\""@ + r.0 + "\", "@ + method_name(r.1) + "("@ + name + "_handlers::"@ + r.2
        + "))"@
}

/// The router module of a tag: every routing key registered with its stub.
pub open spec fn router_module(name: Seq<char>, routes: Seq<RouteView>) -> Seq<char> {
    "mod "@ + name + " {\n    use axum::routing::{get, post, put};\n    use axum::Router;\n    use crate::handlers::"@
        + name + "_handlers;\n\n    pub fn router() -> Router {\n        Router::new()"@
        + concat_all(routes.map_values(|r: RouteView| route_line(name, r))) + "\n    }\n}\n"@
}

/// The router module of the tag `name` for its routing keys.
pub fn generate_router(name: &str, routes: &Vec<RouteEntry>) -> (r: String)
    ensures
        r@ == router_module(name@, routes_view(routes@)),
{
    let mut lines = String::new();
    let mut i: usize = 0;
    while i < routes.len()
        invariant
            i <= routes@.len(),
            lines@ == concat_all(
                routes_view(routes@.subrange(0, i as int)).map_values(
                    |r: RouteView| route_line(name@, r),
                ),
            ),
        decreases routes@.len() - i,
    {
        let ghost next = routes_view(routes@.subrange(0, i + 1)).map_values(
            |r: RouteView| route_line(name@, r),
        );
        assert(next.drop_last() =~= routes_view(routes@.subrange(0, i as int)).map_values(
            |r: RouteView| route_line(name@, r),
        ));
        lines.append("\n        .route(\"");
        lines.append(routes[i].path.as_str());
        lines.append("\", ");
        lines.append(routes[i].method.as_lowercase());
        lines.append("(");
        lines.append(name);
        lines.append("_handlers::");
        lines.append(routes[i].handler.as_str());
        lines.append("))");
        assert(next.last() == route_line(name@, route_view(routes@[i as int])));
        assert(lines@ =~= concat_all(next));
        i = i + 1;
    }
    assert(routes@.subrange(0, routes@.len() as int) =~= routes@);
    let mut r = "mod ".to_owned();
    r.append(name);
    r.append(
        " {\n    use axum::routing::{get, post, put};\n    use axum::Router;\n    use crate::handlers::",
    );
    r.append(name);
    r.append("_handlers;\n\n    pub fn router() -> Router {\n        Router::new()");
    r.append(lines.as_str());
    r.append("\n    }\n}\n");
    r
}

pub open spec fn nest_line(prefix: Seq<char>, router: Seq<char>) -> Seq<char> {
    "\n        .nest(\""@ + prefix + "\", "@ + router + "::router())"@
}

pub open spec fn nest_lines(prefixes: Seq<Seq<char>>, routers: Seq<Seq<char>>) -> Seq<char>
    decreases routers.len(),
{
    if routers.len() == 0 {
        seq![]
    } else {
        nest_lines(prefixes.drop_last(), routers.drop_last()) + nest_line(
            prefixes.last(),
            routers.last(),
        )
    }
}

/// The server module: every router nested under its prefix.
pub open spec fn server_module(prefixes: Seq<Seq<char>>, routers: Seq<Seq<char>>) -> Seq<char> {
    "use axum::Router;\n\n#[allow(dead_code)]\npub fn server() -> Router {\n    Router::new()"@
        + nest_lines(prefixes, routers) + "\n}\n"@
}

/// Composes the server from the routers of the tags, the `i`-th router nested
/// under the `i`-th prefix.
pub fn generate_server(prefixes: &Vec<String>, routers: &Vec<String>) -> (r: String)
    requires
        prefixes@.len() == routers@.len(),
    ensures
        r@ == server_module(strings_view(prefixes@), strings_view(routers@)),
{
    let mut lines = String::new();
    let mut i: usize = 0;
    while i < routers.len()
        invariant
            i <= routers@.len() == prefixes@.len(),
            lines@ == nest_lines(
                strings_view(prefixes@.subrange(0, i as int)),
                strings_view(routers@.subrange(0, i as int)),
            ),
        decreases routers@.len() - i,
    {
        assert(strings_view(prefixes@.subrange(0, i + 1)).drop_last() =~= strings_view(
            prefixes@.subrange(0, i as int),
        ));
        assert(strings_view(routers@.subrange(0, i + 1)).drop_last() =~= strings_view(
            routers@.subrange(0, i as int),
        ));
        lines.append("\n        .nest(\"");
        lines.append(prefixes[i].as_str());
        lines.append("\", ");
        lines.append(routers[i].as_str());
        lines.append("::router())");
        i = i + 1;
    }
    assert(prefixes@.subrange(0, i as int) =~= prefixes@);
    assert(routers@.subrange(0, i as int) =~= routers@);
    let mut r = "use axum::Router;\n\n#[allow(dead_code)]\npub fn server() -> Router {\n    Router::new()".to_owned();
    r.append(lines.as_str());
    r.append("\n}\n");
    r
}

/// The module index: one handler module per tag.
pub open spec fn module_index(tags: Seq<Seq<char>>) -> Seq<char> {
    concat_all(tags.map_values(|t: Seq<char>| "pub mod "@ + t + "_handlers;\n"@))
}

pub fn generate_module_index(tags: &Vec<String>) -> (r: String)
    ensures
        r@ == module_index(strings_view(tags@)),
{
    let mut r = String::new();
    let mut i: usize = 0;
    while i < tags.len()
        invariant
            i <= tags@.len(),
            r@ == module_index(strings_view(tags@.subrange(0, i as int))),
        decreases tags@.len() - i,
    {
        let ghost next = strings_view(tags@.subrange(0, i + 1)).map_values(
            |t: Seq<char>| "pub mod "@ + t + "_handlers;\n"@,
        );
        assert(next.drop_last() =~= strings_view(tags@.subrange(0, i as int)).map_values(
            |t: Seq<char>| "pub mod "@ + t + "_handlers;\n"@,
        ));
        r.append("pub mod ");
        r.append(tags[i].as_str());
        r.append("_handlers;\n");
        assert(r@ =~= concat_all(next));
        i = i + 1;
    }
    assert(tags@.subrange(0, tags@.len() as int) =~= tags@);
    r
}

/// A request body with two media types gives two stubs, named after the
/// operation with each media type as suffix, and two routing keys on the same
/// path and method.
pub proof fn lemma_two_media_types(h: HandlerView)
    requires
        h.body matches Some(b) && b.0.len() == 2,
    ensures
        handler_names(h).len() == 2,
        handler_names(h)[0] == h.operation_id + "_"@ + adjusted_content_type(h.body->Some_0.0[0]),
        handler_names(h)[1] == h.operation_id + "_"@ + adjusted_content_type(h.body->Some_0.0[1]),
        handler_routes(h).len() == 2,
        handler_routes(h)[0] == (h.path, h.method, handler_names(h)[0]),
        handler_routes(h)[1] == (h.path, h.method, handler_names(h)[1]),
{
}

} // verus!
