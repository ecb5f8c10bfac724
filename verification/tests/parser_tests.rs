use api_gen::parser::{
    clear_ref, create_raw_type_from_properties, normalize_key, parse_enum, Definition,
    DefinitionProperty, DefinitionPropertyMap, DefinitionPropertyType, DefinitionType, Operation,
    OperationParameter, OperationParameterField, OperationParameterType, ResponsePayload, Schema,
    SchemaRef,
};

fn plain_property(type_field: Option<DefinitionPropertyType>) -> DefinitionProperty {
    DefinitionProperty {
        description: None,
        type_field,
        _ref: None,
        items: None,
        additional_properties: None,
    }
}

#[test]
fn create_basic_schema() {
    let schema = Schema {
        schemes: vec!["https".to_string()],
        host: "api.example.com".to_string(),
        base_path: "/v1".to_string(),
        paths: Vec::new(),
        definitions: Vec::new(),
    };

    assert!(schema.schemes.len() > 0);
}

#[test]
fn parse_basic_object_definition() {
    let mut properties: DefinitionPropertyMap = Vec::new();
    properties.push((
        "blocks".to_string(),
        plain_property(Some(DefinitionPropertyType::Integer)),
    ));

    let response = create_raw_type_from_properties(&properties);
    let expected = "{blocks:number;}";

    assert_eq!(response, expected);
}

#[test]
fn parse_multiple_properties_object_definition() {
    let mut properties: DefinitionPropertyMap = Vec::new();
    properties.push((
        "blocks".to_string(),
        plain_property(Some(DefinitionPropertyType::Integer)),
    ));
    properties.push((
        "some".to_string(),
        plain_property(Some(DefinitionPropertyType::String)),
    ));

    let response = create_raw_type_from_properties(&properties);

    assert!(response.contains("some:string;"));
    assert!(response.contains("blocks:number;"));
}

#[test]
fn parse_all_possible_properties_object_definition() {
    let mut properties: DefinitionPropertyMap = Vec::new();
    properties.push((
        "some1".to_string(),
        plain_property(Some(DefinitionPropertyType::Integer)),
    ));
    properties.push((
        "some2".to_string(),
        plain_property(Some(DefinitionPropertyType::String)),
    ));
    properties.push((
        "some3".to_string(),
        plain_property(Some(DefinitionPropertyType::Boolean)),
    ));
    properties.push((
        "some4".to_string(),
        DefinitionProperty {
            description: None,
            type_field: Some(DefinitionPropertyType::Array),
            _ref: Some("ref_type".to_string()),
            items: None,
            additional_properties: None,
        },
    ));

    let some_5_items = vec![("some".to_string(), "string".to_string())];
    properties.push((
        "some5".to_string(),
        DefinitionProperty {
            description: None,
            type_field: Some(DefinitionPropertyType::Array),
            _ref: None,
            items: Some(some_5_items),
            additional_properties: None,
        },
    ));

    properties.push((
        "some6".to_string(),
        DefinitionProperty {
            description: None,
            type_field: Some(DefinitionPropertyType::Object),
            _ref: Some("ref_type".to_string()),
            items: None,
            additional_properties: None,
        },
    ));

    let some_7_items = vec![("some".to_string(), "string".to_string())];
    properties.push((
        "some7".to_string(),
        DefinitionProperty {
            description: None,
            type_field: Some(DefinitionPropertyType::Object),
            _ref: None,
            items: Some(some_7_items),
            additional_properties: None,
        },
    ));

    let response = create_raw_type_from_properties(&properties);

    assert!(response.contains("some1:number;"));
    assert!(response.contains("some2:string;"));
    assert!(response.contains("some3:boolean;"));
    assert!(response.contains("some4:ref_type[];"));
    assert!(response.contains("some5:{some:string;}[];"));
    assert!(response.contains("some6:ref_type;"));
    assert!(response.contains("some7:{some:string;}"));
}

#[test]
fn parse_property_with_only_ref() {
    let mut properties: DefinitionPropertyMap = Vec::new();
    properties.push((
        "some".to_string(),
        DefinitionProperty {
            description: None,
            type_field: None,
            _ref: Some("ref_type".to_string()),
            items: None,
            additional_properties: None,
        },
    ));

    let response = create_raw_type_from_properties(&properties);

    assert!(response.contains("some:ref_type;"));
}

#[test]
fn parse_property_without_nothign() {
    let mut properties: DefinitionPropertyMap = Vec::new();
    properties.push(("some".to_string(), plain_property(None)));

    let response = create_raw_type_from_properties(&properties);

    assert!(response.contains("some:never;"));
}

#[test]
fn array_property_with_inline_item_reference() {
    let mut properties: DefinitionPropertyMap = Vec::new();
    let items = vec![("$ref".to_string(), "#/definitions/Foo".to_string())];
    properties.push((
        "some".to_string(),
        DefinitionProperty {
            description: None,
            type_field: Some(DefinitionPropertyType::Array),
            _ref: None,
            items: Some(items),
            additional_properties: None,
        },
    ));

    let response = create_raw_type_from_properties(&properties);

    assert_eq!(response, "{some:Foo[];}");
}

#[test]
fn object_property_with_additional_properties() {
    let mut properties: DefinitionPropertyMap = Vec::new();
    let extra = vec![("name".to_string(), "string".to_string())];
    properties.push((
        "some".to_string(),
        DefinitionProperty {
            description: None,
            type_field: Some(DefinitionPropertyType::Object),
            _ref: None,
            items: None,
            additional_properties: Some(extra),
        },
    ));

    let response = create_raw_type_from_properties(&properties);

    assert_eq!(response, "{some:{name:string;};}");
}

#[test]
fn enum_definition_preserves_source_order() {
    let definition = Definition {
        type_field: DefinitionType::String,
        properties: None,
        _enum: Some(vec!["a".to_string(), "b".to_string()]),
    };

    assert_eq!(parse_enum(&definition), "'a' | 'b'");
}

#[test]
fn enum_definition_single_value() {
    let definition = Definition {
        type_field: DefinitionType::String,
        properties: None,
        _enum: Some(vec!["only".to_string()]),
    };

    assert_eq!(parse_enum(&definition), "'only'");
}

#[test]
fn normalize_key_flattens_dots() {
    assert_eq!(normalize_key(&"a.b.c".to_string()), "a_b_c");
    assert_eq!(normalize_key(&"plain".to_string()), "plain");
}

#[test]
fn clear_ref_strips_definitions_prefix() {
    assert_eq!(clear_ref(&"#/definitions/Foo".to_string()), "Foo");
    assert_eq!(clear_ref(&"#/definitions/Foo.Bar".to_string()), "Foo_Bar");
    assert_eq!(clear_ref(&"NoPrefix".to_string()), "NoPrefix");
}

#[test]
fn clear_ref_strips_only_the_leading_marker() {
    assert_eq!(
        clear_ref(&"#/definitions/x#/definitions/y".to_string()),
        "x#/definitions/y"
    );
}

fn query_parameter(
    name: &str,
    type_field: Option<OperationParameterType>,
    required: Option<bool>,
) -> OperationParameter {
    OperationParameter {
        type_field,
        description: String::new(),
        name: name.to_string(),
        in_field: OperationParameterField::Query,
        required,
        ref_field: None,
    }
}

fn operation_with(parameters: Vec<OperationParameter>) -> Operation {
    Operation {
        description: String::new(),
        operation_id: String::new(),
        parameters,
        responses: Vec::new(),
    }
}

#[test]
fn parameter_required_markings_widen_type() {
    let op = operation_with(Vec::new());

    let declared_true = query_parameter("a", Some(OperationParameterType::String), Some(true));
    assert_eq!(op.parse_inner_type(&declared_true), "string");

    let declared_false = query_parameter("a", Some(OperationParameterType::String), Some(false));
    assert_eq!(
        op.parse_inner_type(&declared_false),
        "string | undefined | null"
    );

    let undeclared = query_parameter("a", Some(OperationParameterType::String), None);
    assert_eq!(
        op.parse_inner_type(&undeclared),
        "string | undefined | null | undefined"
    );

    let untyped = query_parameter("a", None, None);
    assert_eq!(op.parse_inner_type(&untyped), "never");
}

#[test]
fn parse_query_joins_query_parameters() {
    let mut params = Vec::new();
    params.push(query_parameter(
        "page",
        Some(OperationParameterType::Integer),
        Some(true),
    ));
    params.push(OperationParameter {
        type_field: Some(OperationParameterType::Boolean),
        description: String::new(),
        name: "id".to_string(),
        in_field: OperationParameterField::Path,
        required: Some(true),
        ref_field: None,
    });
    params.push(query_parameter(
        "q",
        Some(OperationParameterType::String),
        Some(true),
    ));
    let op = operation_with(params);

    assert_eq!(op.parse_query(), "page: number, q: string");
    assert_eq!(op.parse_path(), "id: boolean");
}

#[test]
fn parse_response_wraps_reference_in_promise() {
    let with_ref = ResponsePayload {
        description: String::new(),
        schema: Some(SchemaRef {
            type_ref: Some("#/definitions/User".to_string()),
            items: None,
        }),
    };
    assert_eq!(with_ref.parse_response(), "Promise<User>");

    let without_ref = ResponsePayload {
        description: String::new(),
        schema: Some(SchemaRef {
            type_ref: None,
            items: None,
        }),
    };
    assert_eq!(without_ref.parse_response(), "Promise<unknown>");

    let without_schema = ResponsePayload {
        description: String::new(),
        schema: None,
    };
    assert_eq!(without_schema.parse_response(), "Promise<unknown>");
}

#[test]
fn parse_body_resolves_reference_or_bottom() {
    let with_ref = OperationParameter {
        type_field: None,
        description: String::new(),
        name: "body".to_string(),
        in_field: OperationParameterField::Body,
        required: Some(true),
        ref_field: Some(SchemaRef {
            type_ref: Some("#/definitions/NewUser".to_string()),
            items: None,
        }),
    };
    assert_eq!(with_ref.parse_body(), "NewUser");

    let without_ref = OperationParameter {
        type_field: None,
        description: String::new(),
        name: "body".to_string(),
        in_field: OperationParameterField::Body,
        required: Some(true),
        ref_field: None,
    };
    assert_eq!(without_ref.parse_body(), "never");
}
