use starpls_custom::builtins::custom_builtins;
use starpls_custom::builtins::unknown_type;
use starpls_custom::builtins::Builtins;
use starpls_custom::builtins::CallableJson;
use starpls_custom::builtins::CustomBuiltinsJson;
use starpls_custom::builtins::ParamJson;
use starpls_custom::builtins::TypeJson;
use starpls_custom::builtins::ValueJson;

fn value_json(name: &str, type_: &str, doc: &str, callable: Option<CallableJson>) -> ValueJson {
    ValueJson { name: name.to_string(), type_: type_.to_string(), callable, doc: doc.to_string() }
}

fn param_json(name: &str, type_: &str, is_mandatory: bool) -> ParamJson {
    ParamJson {
        name: name.to_string(),
        type_: type_.to_string(),
        doc: String::new(),
        default_value: String::new(),
        is_mandatory,
        is_star_arg: false,
        is_star_star_arg: false,
    }
}

#[test]
fn converts_custom_globals_functions_and_types() {
    let json = CustomBuiltinsJson {
        global: vec![
            value_json(
                "make_document",
                "",
                "Creates a mutable document builder.",
                Some(CallableJson { params: vec![], return_type: "example.DocumentBuilder".to_string() }),
            ),
            value_json("runtime", "example.runtime", "", None),
        ],
        types: vec![
            TypeJson {
                name: "example.runtime".to_string(),
                field: vec![value_json(
                    "decode",
                    "",
                    "Decodes a serialized payload.",
                    Some(CallableJson {
                        params: vec![param_json("payload", "string", true)],
                        return_type: "Unknown".to_string(),
                    }),
                )],
                doc: "Runtime namespace.".to_string(),
            },
            TypeJson {
                name: "example.Request".to_string(),
                field: vec![value_json("metadata", "example.Metadata", "", None)],
                doc: String::new(),
            },
        ],
    };
    let builtins = Builtins::from_json(json);

    assert_eq!(builtins.global.len(), 2);
    let make_document = &builtins.global[0];
    assert_eq!(make_document.name, "make_document");
    assert_eq!(make_document.doc, "Creates a mutable document builder.");
    assert_eq!(make_document.api_context, 0);
    let callable = make_document.callable.as_ref().unwrap();
    assert!(callable.param.is_empty());
    assert_eq!(callable.return_type, "example.DocumentBuilder");

    let runtime = &builtins.global[1];
    assert_eq!(runtime.name, "runtime");
    assert_eq!(runtime.type_, "example.runtime");
    assert!(runtime.callable.is_none());

    assert_eq!(builtins.types.len(), 2);
    let runtime_type = &builtins.types[0];
    assert_eq!(runtime_type.name, "example.runtime");
    assert_eq!(runtime_type.doc, "Runtime namespace.");
    assert_eq!(runtime_type.field.len(), 1);
    let decode = &runtime_type.field[0];
    assert_eq!(decode.name, "decode");
    assert_eq!(decode.doc, "Decodes a serialized payload.");
    let callable = decode.callable.as_ref().unwrap();
    assert_eq!(callable.return_type, "Unknown");
    assert_eq!(callable.param.len(), 1);
    assert_eq!(callable.param[0].name, "payload");
    assert_eq!(callable.param[0].type_, "string");
    assert!(callable.param[0].is_mandatory);

    let request_type = &builtins.types[1];
    assert_eq!(request_type.name, "example.Request");
    assert_eq!(request_type.field[0].name, "metadata");
    assert_eq!(request_type.field[0].type_, "example.Metadata");
}

#[test]
fn conversion_keeps_variadic_and_default_parameters() {
    let mut items = param_json("items", "list of string", false);
    items.is_star_arg = true;
    let mut options = param_json("options", "dict of string", false);
    options.is_star_star_arg = true;
    let mut indent = param_json("indent", "int", false);
    indent.default_value = "2".to_string();
    indent.doc = "Number of spaces.".to_string();
    let json = CustomBuiltinsJson {
        global: vec![value_json(
            "render",
            "",
            "",
            Some(CallableJson { params: vec![indent, items, options], return_type: unknown_type() }),
        )],
        types: vec![],
    };
    let builtins = Builtins::from_json(json);
    let params = &builtins.global[0].callable.as_ref().unwrap().param;
    assert_eq!(params.len(), 3);
    assert_eq!(params[0].default_value, "2");
    assert_eq!(params[0].doc, "Number of spaces.");
    assert!(!params[0].is_mandatory);
    assert!(params[1].is_star_arg && !params[1].is_star_star_arg);
    assert!(params[2].is_star_star_arg && !params[2].is_star_arg);
    assert_eq!(builtins.global[0].callable.as_ref().unwrap().return_type, "Unknown");
    assert!(builtins.types.is_empty());
}

#[test]
fn unknown_type_is_unknown() {
    assert_eq!(unknown_type(), "Unknown");
}

#[test]
fn example_runtime_builtins() {
    let builtins = custom_builtins();
    assert_eq!(builtins.global.len(), 2);
    assert_eq!(builtins.global[0].name, "make_document");
    let callable = builtins.global[0].callable.as_ref().unwrap();
    assert_eq!(callable.return_type, "example.Document");
    assert_eq!(callable.param[0].name, "title");
    assert_eq!(builtins.global[1].type_, "example.runtime");
    let names: Vec<&str> = builtins.types.iter().map(|t| t.name.as_str()).collect();
    assert_eq!(names, vec!["example.runtime", "example.Document", "example.Request", "example.Metadata"]);
    assert_eq!(builtins.types[0].field[0].name, "decode");
    assert_eq!(builtins.types[2].field[0].type_, "example.Metadata");
}
