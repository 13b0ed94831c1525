use axum_openapi::{
    adjust_content_type, collect_handlers, describe_operation, generate_artifacts,
    generate_content_handlers, generate_handlers, generate_module_index, generate_router,
    generate_server, modify_path_template, request_bodies_reference_resolver, resolve_parameter,
    resolve_request_body, schema_reference_resolver, Components, Document, GenerationError,
    HandlerDescription, HttpMethod, Operation, OutputDir, Parameter, ParameterLocation, PathItem,
    RefOr, RequestBody, Schema,
};

fn parses(s: &str) -> bool {
    syn::parse_file(s).is_ok()
}

fn path_param(name: &str) -> RefOr<Parameter> {
    RefOr::Item(Parameter { name: name.to_string(), location: ParameterLocation::Path })
}

fn operation(id: Option<&str>, tags: &[&str], params: Vec<RefOr<Parameter>>) -> Operation {
    Operation {
        operation_id: id.map(|s| s.to_string()),
        parameters: params,
        request_body: None,
        tags: tags.iter().map(|t| t.to_string()).collect(),
    }
}

fn document(paths: Vec<(&str, PathItem)>, components: Option<Components>) -> Document {
    Document {
        paths: paths.into_iter().map(|(p, i)| (p.to_string(), RefOr::Item(i))).collect(),
        components,
    }
}

fn get_only(op: Operation) -> PathItem {
    PathItem { get: Some(op), post: None, put: None }
}

fn empty_components() -> Components {
    Components { parameters: vec![], request_bodies: vec![], schemas: vec![] }
}

fn body(types: &[&str], required: bool) -> RequestBody {
    RequestBody { content: types.iter().map(|t| t.to_string()).collect(), required }
}

fn pets_document() -> Document {
    document(
        vec![("/pets/{petId}", get_only(operation(Some("getPetById"), &["pets"], vec![path_param("petId")])))],
        None,
    )
}

#[test]
fn content_type_slashes_become_underscores() {
    assert_eq!(adjust_content_type("application/json"), "application_json");
    assert_eq!(adjust_content_type("a/b/c"), "a_b_c");
    assert_eq!(adjust_content_type("text"), "text");
}

#[test]
fn normalized_path_is_unchanged() {
    assert_eq!(modify_path_template("/pets/:pet_id"), "/pets/:pet_id");
    assert_eq!(modify_path_template(""), "");
}

#[test]
fn several_placeholders_are_rewritten() {
    assert_eq!(modify_path_template("/a/{fooBar}/b/{baz}"), "/a/:foo_bar/b/:baz");
    assert_eq!(modify_path_template("/pets/{petId}"), "/pets/:pet_id");
}

#[test]
fn unclosed_brace_is_dropped() {
    assert_eq!(modify_path_template("/a/{bC"), "/a/bC");
}

#[test]
fn operation_id_canonical_form_is_stable() {
    for id in ["getPetById", "get_pet_by_id"] {
        let op = operation(Some(id), &["pets"], vec![]);
        let (tag, hd) = describe_operation(HttpMethod::Get, "/pets", &op, None).unwrap();
        assert_eq!(tag, "pets");
        assert_eq!(hd.operation_id, "get_pet_by_id");
    }
}

#[test]
fn no_components_leaves_references_unresolved() {
    let r: RefOr<Parameter> = RefOr::Reference("#/components/parameters/petId".to_string());
    assert!(resolve_parameter(&r, None).is_none());
    let b: RefOr<RequestBody> = RefOr::Reference("#/components/request_body/Pet".to_string());
    assert!(resolve_request_body(&b, None).is_none());
}

#[test]
fn request_body_chain_resolves_to_literal() {
    let mut c = empty_components();
    c.request_bodies.push(("A".to_string(), RefOr::Reference("#/components/request_body/B".to_string())));
    c.request_bodies.push(("B".to_string(), RefOr::Item(body(&["application/json"], true))));
    let r = RefOr::Reference("#/components/request_body/A".to_string());
    let got = resolve_request_body(&r, Some(&c)).unwrap();
    assert_eq!(got.content, vec!["application/json".to_string()]);
    assert!(got.required);
}

#[test]
fn reference_cycle_is_unresolved() {
    let mut c = empty_components();
    c.request_bodies.push(("A".to_string(), RefOr::Reference("#/components/request_body/B".to_string())));
    c.request_bodies.push(("B".to_string(), RefOr::Reference("#/components/request_body/A".to_string())));
    let r = RefOr::Reference("#/components/request_body/A".to_string());
    assert!(resolve_request_body(&r, Some(&c)).is_none());
}

#[test]
fn reference_of_other_category_or_name_is_unresolved() {
    let mut c = empty_components();
    c.parameters.push(("id".to_string(), path_param("id")));
    let wrong_cat = RefOr::Reference("#/components/schemas/id".to_string());
    assert!(resolve_parameter(&wrong_cat, Some(&c)).is_none());
    let wrong_name = RefOr::Reference("#/components/parameters/other".to_string());
    assert!(resolve_parameter(&wrong_name, Some(&c)).is_none());
    let no_slash = RefOr::Reference("id".to_string());
    assert!(resolve_parameter(&no_slash, Some(&c)).is_none());
    let short = RefOr::Reference("parameters/id".to_string());
    assert_eq!(resolve_parameter(&short, Some(&c)).unwrap().name, "id");
}

#[test]
fn schema_and_request_bodies_resolvers() {
    let mut c = empty_components();
    c.schemas.push(("Pet".to_string(), RefOr::Item(Schema { definition: "{}".to_string() })));
    c.schemas.push(("Alias".to_string(), RefOr::Reference("#/components/schemas/Pet".to_string())));
    c.request_bodies.push(("P".to_string(), RefOr::Item(body(&["text/plain"], false))));
    let s = RefOr::Reference("#/components/schemas/Alias".to_string());
    assert_eq!(schema_reference_resolver(&s, &c).unwrap().definition, "{}");
    let b = RefOr::Reference("#/components/request_bodies/P".to_string());
    assert_eq!(request_bodies_reference_resolver(&b, &c).unwrap().content, vec!["text/plain".to_string()]);
    let b2 = RefOr::Reference("#/components/request_body/P".to_string());
    assert!(request_bodies_reference_resolver(&b2, &c).is_none());
}

#[test]
fn untagged_operation_goes_to_fallback_group() {
    let doc = document(vec![("/x", get_only(operation(Some("listX"), &[], vec![])))], None);
    let groups = collect_handlers(&doc);
    assert_eq!(groups.tags(), vec!["NoTag".to_string()]);
    assert_eq!(groups.members(&"NoTag".to_string()), vec![0]);
    assert_eq!(groups.entries.len(), 1);
}

#[test]
fn only_first_tag_is_used() {
    let doc = document(vec![("/x", get_only(operation(Some("a"), &["one", "two"], vec![])))], None);
    let groups = collect_handlers(&doc);
    assert_eq!(groups.tags(), vec!["one".to_string()]);
    assert!(groups.members(&"two".to_string()).is_empty());
}

#[test]
fn two_media_types_give_two_stubs() {
    let hd = HandlerDescription {
        operation_id: "add_pet".to_string(),
        method: HttpMethod::Post,
        path: "/pets".to_string(),
        path_params: vec![],
        request_body: Some(body(&["application/json", "text/plain"], true)),
    };
    let (routes, text) = generate_content_handlers(&hd);
    assert_eq!(routes.len(), 2);
    assert_eq!(routes[0].handler, "add_pet_application_json");
    assert_eq!(routes[1].handler, "add_pet_text_plain");
    for r in &routes {
        assert_eq!(r.path, "/pets");
        assert_eq!(r.method, HttpMethod::Post);
    }
    assert!(text.contains("pub async fn add_pet_application_json(Json(body): Json<Value>)"));
    assert!(text.contains("pub async fn add_pet_text_plain(Json(body): Json<Value>)"));
    assert!(parses(&text));
}

#[test]
fn optional_body_with_path_params() {
    let hd = HandlerDescription {
        operation_id: "update".to_string(),
        method: HttpMethod::Put,
        path: "/a/:id".to_string(),
        path_params: vec!["id".to_string()],
        request_body: Some(body(&["application/json"], false)),
    };
    let (_, text) = generate_content_handlers(&hd);
    assert_eq!(
        text,
        "pub async fn update_application_json(Path(id): Path<String>, body: Option<Json<Value>>) -> impl IntoResponse {\n    Json(json!({ \"message\": \"generated with love\", \"params\": [id], \"body\": format!(\"{:?}\", body) }))\n}\n"
    );
}

#[test]
fn end_to_end_pets() {
    let groups = collect_handlers(&pets_document());
    assert_eq!(groups.tags(), vec!["pets".to_string()]);
    let (tag, hd) = &groups.entries[0];
    assert_eq!(tag, "pets");
    assert_eq!(hd.method, HttpMethod::Get);
    assert_eq!(hd.path, "/pets/:pet_id");
    assert_eq!(hd.path_params, vec!["pet_id".to_string()]);
    assert!(hd.request_body.is_none());
    let (routes, text) = generate_handlers(&vec![hd.clone()]);
    assert_eq!(routes.len(), 1);
    assert_eq!(routes[0].path, "/pets/:pet_id");
    assert_eq!(routes[0].method, HttpMethod::Get);
    assert_eq!(routes[0].handler, "get_pet_by_id");
    assert!(text.contains("pub async fn get_pet_by_id(Path(pet_id): Path<String>) -> impl IntoResponse"));
    let router = generate_router("pets", &routes);
    assert!(router.contains(".route(\"/pets/:pet_id\", get(pets_handlers::get_pet_by_id))"));
    assert!(parses(&router));
}

#[test]
fn operation_without_id_is_skipped() {
    let doc = document(
        vec![("/pets", PathItem {
            get: Some(operation(None, &["pets"], vec![])),
            post: Some(operation(Some("addPet"), &["pets"], vec![])),
            put: None,
        })],
        None,
    );
    let groups = collect_handlers(&doc);
    assert_eq!(groups.entries.len(), 1);
    assert_eq!(groups.entries[0].1.operation_id, "add_pet");
    assert_eq!(groups.entries[0].1.method, HttpMethod::Post);
}

#[test]
fn non_path_and_unresolved_parameters_are_dropped() {
    let mut c = empty_components();
    c.parameters.push(("limit".to_string(), RefOr::Item(Parameter { name: "limit".to_string(), location: ParameterLocation::Query })));
    c.parameters.push(("ownerId".to_string(), path_param("ownerId")));
    let op = operation(
        Some("listPets"),
        &["pets"],
        vec![
            RefOr::Reference("#/components/parameters/limit".to_string()),
            RefOr::Reference("#/components/parameters/missing".to_string()),
            RefOr::Reference("#/components/parameters/ownerId".to_string()),
            path_param("petId"),
        ],
    );
    let (_, hd) = describe_operation(HttpMethod::Get, "/o/{ownerId}/p/{petId}", &op, Some(&c)).unwrap();
    assert_eq!(hd.path_params, vec!["owner_id".to_string(), "pet_id".to_string()]);
    assert_eq!(hd.path, "/o/:owner_id/p/:pet_id");
}

#[test]
fn unresolved_body_degrades_to_no_body_stub() {
    let mut op = operation(Some("addPet"), &["pets"], vec![]);
    op.request_body = Some(RefOr::Reference("#/components/request_body/Missing".to_string()));
    let (_, hd) = describe_operation(HttpMethod::Post, "/pets", &op, Some(&empty_components())).unwrap();
    assert!(hd.request_body.is_none());
    let (routes, _) = generate_content_handlers(&hd);
    assert_eq!(routes.len(), 1);
    assert_eq!(routes[0].handler, "add_pet");
}

#[test]
fn run_produces_all_files() {
    let arts = generate_artifacts(&pets_document()).ok().unwrap();
    let names: Vec<(OutputDir, String)> = arts.iter().map(|a| (a.dir, a.name.clone())).collect();
    assert_eq!(
        names,
        vec![
            (OutputDir::Handlers, "pets_handlers".to_string()),
            (OutputDir::Out, "pets".to_string()),
            (OutputDir::Handlers, "mod".to_string()),
            (OutputDir::Out, "lib".to_string()),
        ]
    );
    assert_eq!(arts[2].raw, "pub mod pets_handlers;\n");
    assert!(arts[3].raw.contains(".nest(\"/\", pets::router())"));
    assert!(arts[3].formatted.contains("pub fn server()"));
}

#[test]
fn malformed_source_aborts_run() {
    let doc = document(vec![("/a", get_only(operation(Some("getA"), &["fn"], vec![])))], None);
    match generate_artifacts(&doc) {
        Err(GenerationError::InvalidSource { name, source }) => {
            assert_eq!(name, "fn");
            assert!(!parses(&source));
        }
        other => panic!("unexpected outcome {:?}", other.map(|a| a.len())),
    }
}

#[test]
fn quote_in_path_stops_run() {
    let doc = document(vec![("/a\"b", get_only(operation(Some("getA"), &["t"], vec![])))], None);
    match generate_artifacts(&doc) {
        Err(GenerationError::UnusableName { tag }) => assert_eq!(tag, "t"),
        other => panic!("unexpected outcome {:?}", other.map(|a| a.len())),
    }
}

#[test]
fn non_identifier_tag_stops_run() {
    let doc = document(vec![("/a", get_only(operation(Some("getA"), &["x {} fn f(); mod y"], vec![])))], None);
    assert!(matches!(generate_artifacts(&doc), Err(GenerationError::UnusableName { .. })));
}

#[test]
fn empty_document_gives_server_only() {
    let arts = generate_artifacts(&document(vec![], None)).ok().unwrap();
    assert_eq!(arts.len(), 1);
    assert_eq!(arts[0].name, "lib");
}

#[test]
fn server_nests_every_router() {
    let s = generate_server(&vec!["/".to_string(), "/".to_string()], &vec!["a".to_string(), "b".to_string()]);
    assert_eq!(
        s,
        "use axum::Router;\n\n#[allow(dead_code)]\npub fn server() -> Router {\n    Router::new()\n        .nest(\"/\", a::router())\n        .nest(\"/\", b::router())\n}\n"
    );
    assert!(parses(&s));
}

#[test]
fn module_index_lists_handler_modules() {
    assert_eq!(
        generate_module_index(&vec!["a".to_string(), "b".to_string()]),
        "pub mod a_handlers;\npub mod b_handlers;\n"
    );
}

#[test]
fn artifacts_hold_formatted_source() {
    let arts = generate_artifacts(&pets_document()).ok().unwrap();
    for a in &arts {
        let file = syn::parse_file(&a.raw).unwrap();
        assert_eq!(a.formatted, prettyplease::unparse(&file));
    }
    assert_ne!(arts[3].formatted, arts[3].raw);
}
