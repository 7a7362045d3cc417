use amalgam::error::ParserError;
use amalgam::json::JsonValue;
use amalgam::openapi::{
    AdditionalProperties, ArrayType, IntegerType, NumberType, ObjectType, Schema, SchemaKind, SchemaRef,
    StringType,
};
use amalgam::types::Type;
use amalgam::validation::OpenAPIParser;
use amalgam::walkers::OpenAPIWalker;

fn schema(kind: SchemaKind) -> Schema {
    Schema { description: None, kind }
}

fn item(kind: SchemaKind) -> SchemaRef {
    SchemaRef::Item(Box::new(schema(kind)))
}

fn string() -> SchemaKind {
    SchemaKind::String(StringType { min_length: None, max_length: None, pattern: None, enumeration: vec![] })
}

fn integer(min: Option<i64>, max: Option<i64>, exclusive_min: bool) -> SchemaKind {
    SchemaKind::Integer(IntegerType {
        minimum: min,
        maximum: max,
        exclusive_minimum: exclusive_min,
        exclusive_maximum: false,
        enumeration: vec![],
    })
}

fn object(props: Vec<(&str, SchemaRef)>, required: Vec<&str>, additional: Option<AdditionalProperties>) -> SchemaKind {
    SchemaKind::Object(ObjectType {
        properties: props.into_iter().map(|(n, s)| (n.to_string(), s)).collect(),
        required: required.into_iter().map(|s| s.to_string()).collect(),
        additional_properties: additional,
    })
}

fn reference(r: &str) -> SchemaRef {
    SchemaRef::Reference(r.to_string())
}

fn local(name: &str) -> Type {
    Type::Reference { name: name.to_string(), module: None }
}

#[test]
fn walker_converts_objects_and_references() {
    let walker = OpenAPIWalker::new("petstore");
    let mut refs = Vec::new();
    let pet = schema(object(
        vec![
            ("name", SchemaRef::Item(Box::new(Schema { description: Some("Pet name".to_string()), kind: string() }))),
            ("owner", reference("#/components/schemas/Owner")),
            (
                "tags",
                item(SchemaKind::Array(ArrayType {
                    items: Some(reference("#/components/schemas/Tag")),
                    min_items: None,
                    max_items: None,
                    unique_items: false,
                })),
            ),
        ],
        vec!["name"],
        None,
    ));
    let t = walker.schema_to_type(&pet, &mut refs);
    match t {
        Type::Record { fields, open } => {
            assert!(!open);
            let keys: Vec<_> = fields.iter().map(|f| f.0.as_str()).collect();
            assert_eq!(keys, vec!["name", "owner", "tags"]);
            assert!(fields[0].1.required);
            assert_eq!(fields[0].1.description, Some("Pet name".to_string()));
            assert_eq!(fields[1].1.ty, local("Owner"));
            assert!(!fields[1].1.required);
            assert_eq!(fields[2].1.ty, Type::Array(Box::new(local("Tag"))));
        }
        other => panic!("expected a record, got {:?}", other),
    }
    assert_eq!(refs, vec!["#/components/schemas/Owner".to_string(), "#/components/schemas/Tag".to_string()]);
}

#[test]
fn walker_unions_and_all_of() {
    let walker = OpenAPIWalker::new("m");
    let mut refs = Vec::new();
    let one = schema(SchemaKind::OneOf(vec![item(string()), reference("#/x/Y")]));
    assert_eq!(
        walker.schema_to_type(&one, &mut refs),
        Type::Union { types: vec![Type::String, local("Y")], coercion_hint: None }
    );
    let all = schema(SchemaKind::AllOf(vec![
        item(object(vec![("a", item(string()))], vec![], None)),
        item(object(vec![("b", item(SchemaKind::Boolean))], vec![], Some(AdditionalProperties::Any(true)))),
    ]));
    match walker.schema_to_type(&all, &mut refs) {
        Type::Record { fields, open } => {
            assert!(open);
            assert_eq!(fields.len(), 2);
        }
        other => panic!("expected a record, got {:?}", other),
    }
    assert_eq!(walker.schema_to_type(&schema(SchemaKind::AllOf(vec![])), &mut refs), Type::Any);
    assert_eq!(walker.schema_to_type(&schema(SchemaKind::Not(Box::new(item(string())))), &mut refs), Type::Any);
    assert_eq!(refs, vec!["#/x/Y".to_string()]);
}

#[test]
fn parser_types_and_maps() {
    let parser = OpenAPIParser::new();
    assert_eq!(parser.schema_to_type(&schema(SchemaKind::Boolean)).unwrap(), Type::Bool);
    let arr_ref = schema(SchemaKind::Array(ArrayType {
        items: Some(reference("#/components/schemas/X")),
        min_items: None,
        max_items: None,
        unique_items: false,
    }));
    assert_eq!(parser.schema_to_type(&arr_ref).unwrap(), Type::Array(Box::new(Type::Any)));
    let map = schema(object(vec![], vec![], Some(AdditionalProperties::Schema(Box::new(item(string()))))));
    assert_eq!(
        parser.schema_to_type(&map).unwrap(),
        Type::Mapping { key: Box::new(Type::String), value: Box::new(Type::String) }
    );
    let any_map = schema(object(vec![], vec![], Some(AdditionalProperties::Any(true))));
    assert_eq!(
        parser.schema_to_type(&any_map).unwrap(),
        Type::Mapping { key: Box::new(Type::String), value: Box::new(Type::Any) }
    );
    let closed = schema(object(vec![], vec![], Some(AdditionalProperties::Any(false))));
    assert_eq!(parser.schema_to_type(&closed).unwrap(), Type::Record { fields: vec![], open: true });
    assert_eq!(parser.schema_to_type(&schema(SchemaKind::AllOf(vec![item(string())]))).unwrap(), Type::Any);
    let union = schema(SchemaKind::AnyOf(vec![item(string()), reference("#/r")]));
    assert_eq!(
        parser.schema_to_type(&union).unwrap(),
        Type::Union { types: vec![Type::String], coercion_hint: None }
    );
}

#[test]
fn parser_rejects_not_anywhere() {
    let parser = OpenAPIParser::new();
    let nested = schema(object(vec![("bad", item(SchemaKind::Not(Box::new(item(string())))))], vec![], None));
    match parser.schema_to_type(&nested) {
        Err(ParserError::UnsupportedFeature(m)) => assert_eq!(m, "'not' schema"),
        other => panic!("expected an error, got {:?}", other),
    }
    let components = vec![("Good".to_string(), item(string())), ("Bad".to_string(), SchemaRef::Item(Box::new(nested)))];
    assert!(parser.parse(&components).is_err());
}

#[test]
fn parser_field_validation() {
    let parser = OpenAPIParser::new();
    let s = schema(object(
        vec![
            ("age", item(integer(Some(0), Some(150), true))),
            ("name", item(SchemaKind::String(StringType {
                min_length: Some(1),
                max_length: None,
                pattern: None,
                enumeration: vec![Some("a".to_string()), None],
            }))),
            ("plain", item(string())),
            ("ratio", item(SchemaKind::Number(NumberType {
                minimum: Some("0.5".to_string()),
                maximum: None,
                exclusive_minimum: false,
                exclusive_maximum: false,
            }))),
        ],
        vec!["age"],
        None,
    ));
    match parser.schema_to_type(&s).unwrap() {
        Type::Record { fields, .. } => {
            let age = fields[0].1.validation.as_ref().unwrap();
            assert_eq!(age.minimum, None);
            assert_eq!(age.exclusive_minimum, Some("0".to_string()));
            assert_eq!(age.maximum, Some("150".to_string()));
            assert!(fields[0].1.required);
            let name = fields[1].1.validation.as_ref().unwrap();
            assert_eq!(name.min_length, Some(1));
            assert_eq!(name.allowed_values, Some(vec![JsonValue::Str("a".to_string())]));
            assert!(fields[2].1.validation.is_none());
            let ratio = fields[3].1.validation.as_ref().unwrap();
            assert_eq!(ratio.minimum.as_ref().map(|t| t.parse::<f64>().unwrap()), Some(0.5));
        }
        other => panic!("expected a record, got {:?}", other),
    }
}

#[test]
fn parser_validation_rules_kinds() {
    let parser = OpenAPIParser::new();
    let ints = schema(SchemaKind::Integer(IntegerType {
        minimum: Some(-5),
        maximum: None,
        exclusive_minimum: false,
        exclusive_maximum: true,
        enumeration: vec![Some(1), None, Some(-2)],
    }));
    let r = parser.extract_validation_rules(&ints).unwrap();
    assert_eq!(r.minimum, Some("-5".to_string()));
    assert_eq!(r.exclusive_maximum, None);
    assert_eq!(
        r.allowed_values,
        Some(vec![JsonValue::Number("1".to_string()), JsonValue::Number("-2".to_string())])
    );
    let arr = schema(SchemaKind::Array(ArrayType { items: None, min_items: None, max_items: None, unique_items: true }));
    assert_eq!(parser.extract_validation_rules(&arr).unwrap().unique_items, Some(true));
    assert!(parser.extract_validation_rules(&schema(SchemaKind::Boolean)).is_none());
    assert!(parser.extract_validation_rules(&schema(integer(None, None, true))).is_none());
}

#[test]
fn parser_builds_openapi_module() {
    let parser = OpenAPIParser::new();
    let components = vec![
        ("Pet".to_string(), item(string())),
        ("Ref".to_string(), reference("#/components/schemas/Pet")),
        ("Count".to_string(), item(integer(None, None, false))),
    ];
    let ir = parser.parse(&components).unwrap();
    assert_eq!(ir.modules.len(), 1);
    assert_eq!(ir.modules[0].name, "openapi");
    let names: Vec<_> = ir.modules[0].types.iter().map(|t| t.name.as_str()).collect();
    assert_eq!(names, vec!["Pet", "Count"]);
    assert_eq!(ir.modules[0].types[1].ty, Type::Integer);
}
