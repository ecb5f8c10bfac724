use api_gen::parser::{
    Definition, DefinitionProperty, DefinitionPropertyType, DefinitionType, Operation,
    OperationParameter, OperationParameterField, OperationParameterType, Path, ResponsePayload,
    Schema, SchemaRef,
};
use api_gen::template::{
    generate_baselines, generate_definition_types, generate_fetcher, generate_file_lines,
    generate_fn_name, generate_mutator,
};

fn empty_schema() -> Schema {
    Schema {
        schemes: Vec::new(),
        host: String::new(),
        base_path: String::new(),
        paths: Vec::new(),
        definitions: Vec::new(),
    }
}

fn empty_operation() -> Operation {
    Operation {
        description: String::new(),
        operation_id: String::new(),
        parameters: Vec::new(),
        responses: Vec::new(),
    }
}

fn response_with_ref(name: &str) -> ResponsePayload {
    ResponsePayload {
        description: String::new(),
        schema: Some(SchemaRef {
            type_ref: Some(format!("#/definitions/{}", name)),
            items: None,
        }),
    }
}

fn integer_property() -> DefinitionProperty {
    DefinitionProperty {
        description: None,
        type_field: Some(DefinitionPropertyType::Integer),
        _ref: None,
        items: None,
        additional_properties: None,
    }
}

fn object_definition(properties: Vec<(String, DefinitionProperty)>) -> Definition {
    Definition {
        type_field: DefinitionType::Object,
        properties: Some(properties),
        _enum: None,
    }
}

#[test]
fn fn_name_from_method_and_template() {
    assert_eq!(
        generate_fn_name("GET".to_string(), "/users/{id}".to_string()),
        "get_users_by"
    );
    assert_eq!(
        generate_fn_name("POST".to_string(), "/api-v1/things".to_string()),
        "post_api_v1_things"
    );
    assert_eq!(generate_fn_name("GET".to_string(), "/".to_string()), "get");
}

#[test]
fn baselines_push_the_runtime_preamble() {
    let mut lines: Vec<String> = Vec::new();
    generate_baselines(&mut lines);

    assert_eq!(lines.len(), 1);
    assert!(lines[0].starts_with("\ntype Record = "));
    assert!(lines[0].contains("async function fetcher<TResult, TErr>"));
    assert!(lines[0].contains("async function mutator<TBody, TResult, TErr>"));
}

#[test]
fn definition_aliases_are_flattened_and_sorted() {
    let mut schema = empty_schema();
    schema.definitions.push((
        "b.x".to_string(),
        object_definition(vec![("id".to_string(), integer_property())]),
    ));
    schema.definitions.push((
        "a".to_string(),
        object_definition(vec![("id".to_string(), integer_property())]),
    ));

    let mut lines: Vec<String> = Vec::new();
    generate_definition_types(&schema, &mut lines);

    assert_eq!(lines.len(), 2);
    assert_eq!(lines[0], "export type a = {id:number;};\n");
    assert_eq!(lines[1], "export type b_x = {id:number;};\n");
}

#[test]
fn colliding_definition_names_keep_the_later_definition() {
    let mut schema = empty_schema();
    schema.definitions.push((
        "a.b".to_string(),
        object_definition(vec![("first".to_string(), integer_property())]),
    ));
    schema.definitions.push((
        "a_b".to_string(),
        object_definition(vec![("second".to_string(), integer_property())]),
    ));

    let mut lines: Vec<String> = Vec::new();
    generate_definition_types(&schema, &mut lines);

    assert_eq!(lines.len(), 1);
    assert_eq!(lines[0], "export type a_b = {second:number;};\n");
}

#[test]
fn fetcher_collapses_duplicate_response_types() {
    let mut op = empty_operation();
    op.responses.push(("200".to_string(), response_with_ref("A")));
    op.responses.push(("201".to_string(), response_with_ref("A")));
    op.responses.push(("404".to_string(), response_with_ref("B")));

    let mut lines: Vec<String> = Vec::new();
    generate_fetcher(&"/things".to_string(), &op, &mut lines);

    assert_eq!(lines.len(), 4);
    assert_eq!(lines[1], "type get_things_response = Promise<A>;\n");
    assert_eq!(lines[2], "type get_things_error = Promise<B>;\n");
}

#[test]
fn fetcher_emits_input_alias_and_function() {
    let mut op = empty_operation();
    op.responses.push(("200".to_string(), response_with_ref("A")));

    let mut lines: Vec<String> = Vec::new();
    generate_fetcher(&"/things".to_string(), &op, &mut lines);

    assert_eq!(lines.len(), 4);
    assert_eq!(
        lines[0],
        "\n\ntype things_Params = { query: {}, path: {} };\n"
    );
    assert_eq!(lines[1], "type get_things_response = Promise<A>;\n");
    assert_eq!(lines[2], "type get_things_error = never;\n");
    assert_eq!(
        lines[3],
        "export async function get_things(props: things_Params) {\n    return fetcher<get_things_response, get_things_error>(\"/things\", props);\n}\n"
    );
}

#[test]
fn mutator_with_body_parameter() {
    let mut op = empty_operation();
    op.responses.push(("200".to_string(), response_with_ref("A")));
    op.parameters.push(OperationParameter {
        type_field: None,
        description: String::new(),
        name: "body".to_string(),
        in_field: OperationParameterField::Body,
        required: Some(true),
        ref_field: Some(SchemaRef {
            type_ref: Some("#/definitions/NewThing".to_string()),
            items: None,
        }),
    });

    let mut lines: Vec<String> = Vec::new();
    generate_mutator(
        &"/things".to_string(),
        &"POST".to_string(),
        &op,
        &mut lines,
    );

    assert_eq!(lines.len(), 5);
    assert_eq!(
        lines[0],
        "\n\ntype postthings_Params = { query: {}, path: {} };\n"
    );
    assert_eq!(lines[3], "type post_things_body= NewThing;\n");
    assert_eq!(
        lines[4],
        "export async function post_things(props: postthings_Params, body: post_things_body, init?: RequestInit) {\n    return mutator<post_things_body, post_things_response, post_things_error>(\"POST\", \"/things\", props, body, init);\n}\n"
    );
}

#[test]
fn mutator_without_body_parameter_passes_null() {
    let mut op = empty_operation();
    op.responses.push(("204".to_string(), response_with_ref("A")));

    let mut lines: Vec<String> = Vec::new();
    generate_mutator(
        &"/things".to_string(),
        &"DELETE".to_string(),
        &op,
        &mut lines,
    );

    assert_eq!(lines.len(), 5);
    assert_eq!(lines[3], "type delete_things_body= never;\n");
    assert_eq!(
        lines[4],
        "export async function delete_things(props: deletethings_Params, init?: RequestInit) {\n    return mutator<never, delete_things_response, delete_things_error>(\"DELETE\", \"/things\", props, null, init);\n}\n"
    );
}

#[test]
fn round_trip_single_definition_document() {
    let mut schema = empty_schema();
    schema.definitions.push((
        "User".to_string(),
        object_definition(vec![("id".to_string(), integer_property())]),
    ));

    let lines = generate_file_lines(schema);

    assert_eq!(lines.len(), 2);
    assert_eq!(lines[1], "export type User = {id:number;};\n");
    let whole = lines.concat();
    assert!(whole.contains("export type User = {id:number;};\n"));
    assert!(!whole.contains("export async function"));
    assert!(!whole.contains("_Params"));
}

#[test]
fn post_only_path_produces_mutator_and_no_fetcher() {
    let mut op = empty_operation();
    op.responses.push(("200".to_string(), response_with_ref("A")));

    let mut schema = empty_schema();
    schema.paths.push((
        "/things".to_string(),
        Path {
            get: None,
            post: Some(op),
            put: None,
            delete: None,
            patch: None,
        },
    ));

    let lines = generate_file_lines(schema);
    let fragments = lines[1..].concat();

    assert!(fragments.contains("export async function post_things"));
    assert!(fragments.contains("mutator<"));
    assert!(!fragments.contains("fetcher<"));
    assert!(!fragments.contains("export async function get_"));
}

#[test]
fn methods_emit_in_fixed_priority_order() {
    let mut get_op = empty_operation();
    get_op.responses.push(("200".to_string(), response_with_ref("A")));
    let mut post_op = empty_operation();
    post_op.responses.push(("200".to_string(), response_with_ref("B")));

    let mut schema = empty_schema();
    schema.paths.push((
        "/things".to_string(),
        Path {
            get: Some(get_op),
            post: Some(post_op),
            put: None,
            delete: None,
            patch: None,
        },
    ));

    let lines = generate_file_lines(schema);
    let whole = lines.concat();
    let fetcher_at = whole.find("export async function get_things").unwrap();
    let mutator_at = whole.find("export async function post_things").unwrap();

    assert!(fetcher_at < mutator_at);
}

#[test]
fn empty_success_class_falls_back_to_bottom_type() {
    let mut op = empty_operation();
    op.responses.push(("404".to_string(), response_with_ref("B")));

    let mut lines: Vec<String> = Vec::new();
    generate_fetcher(&"/things".to_string(), &op, &mut lines);

    assert_eq!(lines[1], "type get_things_response = never;\n");
    assert_eq!(lines[2], "type get_things_error = Promise<B>;\n");
}

#[test]
fn success_union_of_distinct_schemas_keeps_both() {
    let mut op = empty_operation();
    op.responses.push(("200".to_string(), response_with_ref("A")));
    op.responses.push(("201".to_string(), response_with_ref("C")));

    let mut lines: Vec<String> = Vec::new();
    generate_fetcher(&"/things".to_string(), &op, &mut lines);

    assert_eq!(lines[1], "type get_things_response = Promise<A> | Promise<C>;\n");
}
