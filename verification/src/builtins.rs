//! The builtin model (globals, types, callables, parameters) and its
//! construction from the JSON stub of a custom schema.

use vstd::prelude::*;
use vstd::string::*;

verus! {

/// A parameter of a builtin callable.
pub struct Param {
    pub name: String,
    pub type_: String,
    pub doc: String,
    pub default_value: String,
    pub is_mandatory: bool,
    pub is_star_arg: bool,
    pub is_star_star_arg: bool,
}

/// The signature of a builtin callable.
pub struct Callable {
    pub param: Vec<Param>,
    pub return_type: String,
}

/// A builtin global or a field of a builtin type.
pub struct Value {
    pub name: String,
    pub type_: String,
    pub callable: Option<Callable>,
    pub doc: String,
    /// The API context the value belongs to; 0 means every context.
    pub api_context: i32,
}

/// A builtin type and its fields.
pub struct Type {
    pub name: String,
    pub field: Vec<Value>,
    pub doc: String,
}

/// The builtins of a dialect or a custom schema.
pub struct Builtins {
    pub types: Vec<Type>,
    pub global: Vec<Value>,
}

/// A parameter as a schema stub writes it (defaults already applied).
pub struct ParamJson {
    pub name: String,
    pub type_: String,
    pub doc: String,
    pub default_value: String,
    pub is_mandatory: bool,
    pub is_star_arg: bool,
    pub is_star_star_arg: bool,
}

/// A callable as a schema stub writes it.
pub struct CallableJson {
    pub params: Vec<ParamJson>,
    pub return_type: String,
}

/// A value as a schema stub writes it.
pub struct ValueJson {
    pub name: String,
    pub type_: String,
    pub callable: Option<CallableJson>,
    pub doc: String,
}

/// A type as a schema stub writes it.
pub struct TypeJson {
    pub name: String,
    pub field: Vec<ValueJson>,
    pub doc: String,
}

/// A whole schema stub: its `global` and `type` lists.
pub struct CustomBuiltinsJson {
    pub global: Vec<ValueJson>,
    pub types: Vec<TypeJson>,
}

/// `p` carries every field of `j` unchanged.
pub open spec fn param_from_json(j: ParamJson, p: Param) -> bool {
    &&& p.name == j.name
    &&& p.type_ == j.type_
    &&& p.doc == j.doc
    &&& p.default_value == j.default_value
    &&& p.is_mandatory == j.is_mandatory
    &&& p.is_star_arg == j.is_star_arg
    &&& p.is_star_star_arg == j.is_star_star_arg
}

/// `c` holds the parameters of `j`, each converted, in order, and its
/// return type.
pub open spec fn callable_from_json(j: CallableJson, c: Callable) -> bool {
    &&& c.param@.len() == j.params@.len()
    &&& forall|i: int| 0 <= i < j.params@.len() ==> param_from_json(#[trigger] j.params@[i], c.param@[i])
    &&& c.return_type == j.return_type
}

/// `v` carries the name, type and doc of `j`, its callable converted (or
/// none when `j` has none), and the API context that covers every context.
pub open spec fn value_from_json(j: ValueJson, v: Value) -> bool {
    &&& v.name == j.name
    &&& v.type_ == j.type_
    &&& v.doc == j.doc
    &&& v.api_context == 0
    &&& match (j.callable, v.callable) {
        (None, None) => true,
        (Some(jc), Some(c)) => callable_from_json(jc, c),
        _ => false,
    }
}

/// Each of `vs` is the conversion of the entry of `js` at the same index.
pub open spec fn values_from_json(js: Seq<ValueJson>, vs: Seq<Value>) -> bool {
    &&& vs.len() == js.len()
    &&& forall|i: int| 0 <= i < js.len() ==> value_from_json(#[trigger] js[i], vs[i])
}

/// `t` carries the name and doc of `j` and its fields, converted, in order.
pub open spec fn type_from_json(j: TypeJson, t: Type) -> bool {
    &&& t.name == j.name
    &&& t.doc == j.doc
    &&& values_from_json(j.field@, t.field@)
}

/// `b` holds the globals and the types of `j`, converted, in order.
pub open spec fn builtins_from_json(j: CustomBuiltinsJson, b: Builtins) -> bool {
    &&& values_from_json(j.global@, b.global@)
    &&& b.types@.len() == j.types@.len()
    &&& forall|i: int| 0 <= i < j.types@.len() ==> type_from_json(#[trigger] j.types@[i], b.types@[i])
}

impl Param {
    /// The parameter a stub entry describes.
    pub fn from_json(value: ParamJson) -> (r: Param)
        ensures
            param_from_json(value, r),
    {
        Param {
            name: value.name,
            type_: value.type_,
            doc: value.doc,
            default_value: value.default_value,
            is_mandatory: value.is_mandatory,
            is_star_arg: value.is_star_arg,
            is_star_star_arg: value.is_star_star_arg,
        }
    }
}

impl Callable {
    /// The callable a stub entry describes.
    pub fn from_json(value: CallableJson) -> (r: Callable)
        ensures
            callable_from_json(value, r),
    {
        let ghost params = value.params@;
        let mut param: Vec<Param> = Vec::new();
        for p in it: value.params.into_iter()
            invariant
                it.seq() == params,
                param@.len() == it.index(),
                forall|i: int| 0 <= i < it.index() ==> param_from_json(#[trigger] params[i], param@[i]),
        {
            param.push(Param::from_json(p));
        }
        Callable { param, return_type: value.return_type }
    }
}

impl Value {
    /// The value a stub entry describes, in every API context.
    pub fn from_json(value: ValueJson) -> (r: Value)
        ensures
            value_from_json(value, r),
    {
        let callable = match value.callable {
            Some(c) => Some(Callable::from_json(c)),
            None => None,
        };
        Value { name: value.name, type_: value.type_, callable, doc: value.doc, api_context: 0 }
    }
}

/// The values the stub entries describe, in order.
fn values_from_json_vec(values: Vec<ValueJson>) -> (r: Vec<Value>)
    ensures
        values_from_json(values@, r@),
{
    let ghost js = values@;
    let mut out: Vec<Value> = Vec::new();
    for v in it: values.into_iter()
        invariant
            it.seq() == js,
            out@.len() == it.index(),
            forall|i: int| 0 <= i < it.index() ==> value_from_json(#[trigger] js[i], out@[i]),
    {
        out.push(Value::from_json(v));
    }
    out
}

impl Type {
    /// The type a stub entry describes.
    pub fn from_json(value: TypeJson) -> (r: Type)
        ensures
            type_from_json(value, r),
    {
        Type { name: value.name, field: values_from_json_vec(value.field), doc: value.doc }
    }
}

impl Builtins {
    /// The builtins a whole stub describes.
    pub fn from_json(value: CustomBuiltinsJson) -> (r: Builtins)
        ensures
            builtins_from_json(value, r),
    {
        let ghost ts = value.types@;
        let global = values_from_json_vec(value.global);
        let mut types: Vec<Type> = Vec::new();
        for t in it: value.types.into_iter()
            invariant
                it.seq() == ts,
                types@.len() == it.index(),
                forall|i: int| 0 <= i < it.index() ==> type_from_json(#[trigger] ts[i], types@[i]),
        {
            types.push(Type::from_json(t));
        }
        Builtins { types, global }
    }
}

/// The type a stub gives a parameter or a return value it leaves untyped.
pub fn unknown_type() -> (r: String)
    ensures
        r@ == "Unknown"@,
{
    String::from_str("Unknown")
}

fn text(s: &str) -> (r: String)
    ensures
        r@ == s@,
{
    String::from_str(s)
}

fn stub_value(name: &str, type_: &str, doc: &str, callable: Option<CallableJson>) -> (r: ValueJson)
    ensures
        r.name@ == name@,
        r.type_@ == type_@,
        r.doc@ == doc@,
        r.callable == callable,
{
    ValueJson { name: text(name), type_: text(type_), callable, doc: text(doc) }
}

fn stub_mandatory_param(name: &str, type_: &str, doc: &str) -> (r: ParamJson)
    ensures
        r.name@ == name@,
        r.type_@ == type_@,
        r.doc@ == doc@,
        r.default_value@ == Seq::<char>::empty(),
        r.is_mandatory,
        !r.is_star_arg,
        !r.is_star_star_arg,
{
    ParamJson {
        name: text(name),
        type_: text(type_),
        doc: text(doc),
        default_value: String::new(),
        is_mandatory: true,
        is_star_arg: false,
        is_star_star_arg: false,
    }
}

fn stub_type(name: &str, field: ValueJson) -> (r: TypeJson)
    ensures
        r.name@ == name@,
        r.doc@ == Seq::<char>::empty(),
        r.field@ == seq![field],
{
    let mut fields: Vec<ValueJson> = Vec::new();
    fields.push(field);
    TypeJson { name: text(name), field: fields, doc: String::new() }
}

/// The builtins of the example runtime used to exercise custom schemas: a
/// `make_document` function, a `runtime` namespace with a `decode` method,
/// and the `example.Document`, `example.Request` and `example.Metadata`
/// types.
pub fn custom_builtins() -> (r: Builtins)
    ensures
        r.global@.len() == 2,
        r.global@[0].name@ == "make_document"@,
        r.global@[0].doc@ == "Creates a document."@,
        r.global@[0].type_@ == Seq::<char>::empty(),
        r.global@[0].callable matches Some(c) && c.return_type@ == "example.Document"@ && c.param@.len() == 1
            && c.param@[0].name@ == "title"@ && c.param@[0].type_@ == "string"@ && c.param@[0].doc@
            == "Document title."@ && c.param@[0].default_value@ == Seq::<char>::empty()
            && c.param@[0].is_mandatory && !c.param@[0].is_star_arg && !c.param@[0].is_star_star_arg,
        r.global@[1].doc@ == Seq::<char>::empty(),
        forall|i: int| 0 <= i < 2 ==> (#[trigger] r.global@[i]).api_context == 0,
        r.global@[1].name@ == "runtime"@,
        r.global@[1].type_@ == "example.runtime"@,
        r.global@[1].callable is None,
        r.types@.len() == 4,
        r.types@[0].name@ == "example.runtime"@,
        r.types@[0].field@.len() == 1,
        r.types@[0].field@[0].name@ == "decode"@,
        r.types@[0].field@[0].doc@ == "Decodes a payload."@,
        r.types@[0].field@[0].callable matches Some(c) && c.return_type@ == "example.Document"@
            && c.param@.len() == 1 && c.param@[0].name@ == "payload"@ && c.param@[0].type_@ == "string"@
            && c.param@[0].doc@ == "Serialized payload."@ && c.param@[0].default_value@ == Seq::<char>::empty()
            && c.param@[0].is_mandatory && !c.param@[0].is_star_arg && !c.param@[0].is_star_star_arg,
        r.types@[0].field@[0].type_@ == Seq::<char>::empty(),
        forall|i: int| 0 <= i < 4 ==> (#[trigger] r.types@[i]).doc@ == Seq::<char>::empty(),
        forall|i: int|
            1 <= i < 4 ==> (#[trigger] r.types@[i]).field@[0].callable is None && r.types@[i].field@[0].doc@
                == Seq::<char>::empty(),
        r.types@[1].name@ == "example.Document"@,
        r.types@[1].field@.len() == 1,
        r.types@[1].field@[0].name@ == "title"@,
        r.types@[1].field@[0].type_@ == "string"@,
        r.types@[2].name@ == "example.Request"@,
        r.types@[2].field@.len() == 1,
        r.types@[2].field@[0].name@ == "metadata"@,
        r.types@[2].field@[0].type_@ == "example.Metadata"@,
        r.types@[3].name@ == "example.Metadata"@,
        r.types@[3].field@.len() == 1,
        r.types@[3].field@[0].name@ == "name"@,
        r.types@[3].field@[0].type_@ == "string"@,
        forall|i: int| 0 <= i < 4 ==> (#[trigger] r.types@[i]).field@[0].api_context == 0,
{
    proof {
        reveal_strlit("");
    }
    let mut make_document_params: Vec<ParamJson> = Vec::new();
    make_document_params.push(stub_mandatory_param("title", "string", "Document title."));
    let make_document = stub_value(
        "make_document",
        "",
        "Creates a document.",
        Some(CallableJson { params: make_document_params, return_type: text("example.Document") }),
    );
    let runtime = stub_value("runtime", "example.runtime", "", None);

    let mut decode_params: Vec<ParamJson> = Vec::new();
    decode_params.push(stub_mandatory_param("payload", "string", "Serialized payload."));
    let decode = stub_value(
        "decode",
        "",
        "Decodes a payload.",
        Some(CallableJson { params: decode_params, return_type: text("example.Document") }),
    );

    let mut global: Vec<ValueJson> = Vec::new();
    global.push(make_document);
    global.push(runtime);

    let mut types: Vec<TypeJson> = Vec::new();
    types.push(stub_type("example.runtime", decode));
    types.push(stub_type("example.Document", stub_value("title", "string", "", None)));
    types.push(stub_type("example.Request", stub_value("metadata", "example.Metadata", "", None)));
    types.push(stub_type("example.Metadata", stub_value("name", "string", "", None)));

    let json = CustomBuiltinsJson { global, types };
    let ghost g = json.global@;
    let ghost ts = json.types@;
    let r = Builtins::from_json(json);
    assert(value_from_json(g[0], r.global@[0]));
    assert(value_from_json(g[1], r.global@[1]));
    assert(type_from_json(ts[0], r.types@[0]));
    assert(type_from_json(ts[1], r.types@[1]));
    assert(type_from_json(ts[2], r.types@[2]));
    assert(type_from_json(ts[3], r.types@[3]));
    assert(value_from_json(ts[0].field@[0], r.types@[0].field@[0]));
    assert(value_from_json(ts[1].field@[0], r.types@[1].field@[0]));
    assert(value_from_json(ts[2].field@[0], r.types@[2].field@[0]));
    assert(value_from_json(ts[3].field@[0], r.types@[3].field@[0]));
    assert(param_from_json(g[0].callable->0.params@[0], r.global@[0].callable->0.param@[0]));
    assert(param_from_json(
        ts[0].field@[0].callable->0.params@[0],
        r.types@[0].field@[0].callable->0.param@[0],
    ));
    r
}

} // verus!
