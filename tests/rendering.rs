use liquid_json::bridge::to_liquid_obj;
use liquid_json::filters::{base64_decode, base64_encode, json_sources, jsonify};
use liquid_json::{Context, Each, Error, Json, LiquidJson, LiquidValue, Number, Rendered};

fn s(x: &str) -> String {
    x.to_string()
}

fn obj(members: Vec<(&str, Json)>) -> Json {
    Json::Object(members.into_iter().map(|(k, v)| (s(k), v)).collect())
}

fn text(t: &str) -> Result<Rendered, String> {
    Ok(Rendered { text: s(t), captured: None })
}

fn captured(v: LiquidValue) -> Result<Rendered, String> {
    Ok(Rendered { text: s(""), captured: Some(v) })
}

fn ctx(data: Json) -> Context {
    to_liquid_obj(&data).unwrap()
}

fn same(a: &Json, b: &Json) {
    assert_eq!(format!("{:?}", a), format!("{:?}", b));
}

fn float(x: f64) -> Json {
    Json::Number(Number::Float(x.to_bits()))
}

fn single_substitution(v: Json) {
    let t = LiquidJson::new(obj(vec![("this", Json::String(s("{{ myval }}")))]));
    let c = ctx(obj(vec![("myval", v.clone())]));
    let reqs = t.requests(&c);
    assert_eq!(reqs, vec![s("this")]);
    let out = t.render(&c, &vec![text("this")]).unwrap();
    same(&out, &obj(vec![("this", v)]));
}

#[test]
fn single_reference_keeps_the_integer_type() {
    single_substitution(Json::Number(Number::PosInt(5)));
    single_substitution(Json::Number(Number::PosInt(i64::MAX as u64)));
    single_substitution(Json::Number(Number::PosInt(u32::MAX as u64)));
}

#[test]
fn single_reference_keeps_other_types() {
    single_substitution(float(5.1));
    single_substitution(float(f64::MAX));
    single_substitution(Json::String(s("5")));
    single_substitution(Json::Bool(true));
    single_substitution(Json::Null);
    single_substitution(Json::Array(vec![float(5.1), float(4.2)]));
    single_substitution(obj(vec![("deeper", Json::Number(Number::PosInt(10)))]));
}

#[test]
fn missing_reference_goes_to_the_engine() {
    let t = LiquidJson::new(obj(vec![("this", Json::String(s("{{ myval | default: 'hey'}}")))]));
    let c = ctx(obj(vec![]));
    assert_eq!(t.requests(&c), vec![s("this"), s("{{ myval | default: 'hey'}}")]);
    let out = t.render(&c, &vec![text("this"), text("hey")]).unwrap();
    same(&out, &obj(vec![("this", Json::String(s("hey")))]));
    let t = LiquidJson::new(Json::String(s("{{ absent }}")));
    assert_eq!(t.requests(&c), vec![s("{{ absent }}")]);
    same(&t.render(&c, &vec![text("")]).unwrap(), &Json::String(s("")));
}

#[test]
fn keys_are_templates() {
    let t = LiquidJson::new(obj(vec![("{{ myval }}", Json::String(s("bar")))]));
    let c = ctx(obj(vec![("myval", Json::String(s("this")))]));
    assert_eq!(t.requests(&c), vec![s("{{ myval }}"), s("bar")]);
    let out = t.render(&c, &vec![text("this"), text("bar")]).unwrap();
    same(&out, &obj(vec![("this", Json::String(s("bar")))]));
}

#[test]
fn colliding_keys_keep_the_later_value() {
    let t = LiquidJson::new(obj(vec![
        ("{{ a }}", Json::Number(Number::PosInt(1))),
        ("x", Json::Number(Number::PosInt(2))),
        ("{{ b }}", Json::Number(Number::PosInt(3))),
    ]));
    let c = ctx(obj(vec![]));
    let out = t.render(&c, &vec![text("k"), text("x"), text("k")]).unwrap();
    same(&out, &obj(vec![("k", Json::Number(Number::PosInt(3))), ("x", Json::Number(Number::PosInt(2)))]));
}

#[test]
fn output_capture_gives_a_structured_value() {
    let t = LiquidJson::new(obj(vec![("this", Json::String(s("{{ myval | output }}")))]));
    let c = ctx(obj(vec![("myval", Json::Array(vec![float(5.1), float(4.2)]))]));
    let arr = LiquidValue::Array(vec![LiquidValue::Float(5.1f64.to_bits()), LiquidValue::Float(4.2f64.to_bits())]);
    let out = t.render(&c, &vec![text("this"), captured(arr)]).unwrap();
    same(&out, &obj(vec![("this", Json::Array(vec![float(5.1), float(4.2)]))]));
}

#[test]
fn each_then_output() {
    let src = "{{ myval | each: \"I am {{el}} feet tall\" | output }}";
    let t = LiquidJson::new(obj(vec![("this", Json::String(s(src)))]));
    let c = ctx(obj(vec![("myval", Json::Array(vec![float(5.1), float(4.2)]))]));
    assert_eq!(t.requests(&c), vec![s("this"), s(src)]);
    let each = Each::new();
    let input = c.entries[0].1.clone();
    let contexts = each.element_contexts(&input).unwrap();
    assert_eq!(contexts.len(), 2);
    assert_eq!(contexts[0].entries[0].0, "el");
    assert!(matches!(contexts[1].entries[0].1, LiquidValue::Float(b) if b == 4.2f64.to_bits()));
    let list = each.collect(vec![s("I am 5.1 feet tall"), s("I am 4.2 feet tall")]);
    let out = t.render(&c, &vec![text("this"), captured(list)]).unwrap();
    same(
        &out,
        &obj(vec![(
            "this",
            Json::Array(vec![Json::String(s("I am 5.1 feet tall")), Json::String(s("I am 4.2 feet tall"))]),
        )]),
    );
}

#[test]
fn each_refuses_a_non_array() {
    let r = Each::new().element_contexts(&LiquidValue::Str(s("x")));
    assert_eq!(r.unwrap_err(), "Array expected");
}

#[test]
fn each_then_json_then_output() {
    let src = "{{ to | each: '{ \"email\": \"{{ el }}\" }' | json | output }}";
    let t = LiquidJson::new(obj(vec![("recipients", Json::String(s(src)))]));
    let c = ctx(obj(vec![(
        "to",
        Json::Array(vec![Json::String(s("john@example.com")), Json::String(s("jane@example.com"))]),
    )]));
    let each = Each::new();
    let contexts = each.element_contexts(&c.entries[0].1).unwrap();
    assert_eq!(contexts.len(), 2);
    let list = each.collect(vec![
        s("{ \"email\": \"john@example.com\" }"),
        s("{ \"email\": \"jane@example.com\" }"),
    ]);
    let sources = json_sources(&list);
    assert_eq!(sources, vec![s("{ \"email\": \"john@example.com\" }"), s("{ \"email\": \"jane@example.com\" }")]);
    let parsed = vec![
        Ok(LiquidValue::Object(vec![(s("email"), LiquidValue::Str(s("john@example.com")))])),
        Ok(LiquidValue::Object(vec![(s("email"), LiquidValue::Str(s("jane@example.com")))])),
    ];
    let value = jsonify(&list, &parsed).unwrap();
    let out = t.render(&c, &vec![text("recipients"), captured(value)]).unwrap();
    same(
        &out,
        &obj(vec![(
            "recipients",
            Json::Array(vec![
                obj(vec![("email", Json::String(s("john@example.com")))]),
                obj(vec![("email", Json::String(s("jane@example.com")))]),
            ]),
        )]),
    );
}

#[test]
fn json_keeps_other_values_and_reports_a_failed_parse() {
    let v = LiquidValue::Object(vec![
        (s("n"), LiquidValue::Integer(3)),
        (s("a"), LiquidValue::Array(vec![LiquidValue::Str(s("1")), LiquidValue::Nil, LiquidValue::Str(s("{"))])),
    ]);
    assert_eq!(json_sources(&v), vec![s("1"), s("{")]);
    let ok = jsonify(&v, &vec![Ok(LiquidValue::Integer(1)), Ok(LiquidValue::Bool(true))]).unwrap();
    assert_eq!(
        format!("{:?}", ok),
        format!(
            "{:?}",
            LiquidValue::Object(vec![
                (s("n"), LiquidValue::Integer(3)),
                (s("a"), LiquidValue::Array(vec![LiquidValue::Integer(1), LiquidValue::Nil, LiquidValue::Bool(true)])),
            ])
        )
    );
    let err = jsonify(&v, &vec![Ok(LiquidValue::Integer(1)), Err(s("invalid JSON string: EOF"))]);
    assert_eq!(err.unwrap_err(), "invalid JSON string: EOF");
}

#[test]
fn base64_literal_case() {
    match base64_encode("This is my message") {
        LiquidValue::Str(e) => assert_eq!(e, "VGhpcyBpcyBteSBtZXNzYWdl"),
        other => panic!("unexpected {:?}", other),
    }
    match base64_decode("VGhpcyBpcyBteSBtZXNzYWdl").unwrap() {
        LiquidValue::Str(d) => assert_eq!(d, "This is my message"),
        other => panic!("unexpected {:?}", other),
    }
}

#[test]
fn base64_round_trip() {
    for t in ["", "a", "ab", "abc", "héllo wörld ✓", "line\nbreak"] {
        let e = match base64_encode(t) {
            LiquidValue::Str(e) => e,
            other => panic!("unexpected {:?}", other),
        };
        match base64_decode(&e).unwrap() {
            LiquidValue::Str(d) => assert_eq!(d, t),
            other => panic!("unexpected {:?}", other),
        }
    }
}

#[test]
fn base64_decode_failures() {
    assert!(base64_decode("not base64!").is_err());
    assert!(base64_decode("/w==").is_err());
}

#[test]
fn engine_failure_aborts_the_render() {
    let t = LiquidJson::new(Json::Array(vec![
        Json::String(s("{{ a }}")),
        Json::String(s("{% bad")),
        Json::String(s("{{ c }}")),
    ]));
    let c = ctx(obj(vec![]));
    let r = t.render(&c, &vec![text("1"), Err(s("syntax")), Err(s("later"))]);
    assert!(matches!(r, Err(Error::LiquidError(m)) if m == "syntax"));
}

#[test]
fn plain_templates_render_to_themselves() {
    let doc = obj(vec![
        ("a", Json::Array(vec![Json::Number(Number::PosInt(1)), Json::String(s("x")), Json::Null])),
        ("b", obj(vec![("c", Json::Bool(true)), ("d", float(2.5))])),
    ]);
    let t = LiquidJson::new(doc.clone());
    let c = ctx(obj(vec![("x", Json::Number(Number::PosInt(9)))]));
    let reqs = t.requests(&c);
    assert_eq!(reqs, vec![s("a"), s("x"), s("b"), s("c"), s("d")]);
    let outs = reqs.iter().map(|r| text(r)).collect::<Vec<_>>();
    let out = t.render(&c, &outs).unwrap();
    same(&out, &doc);
}

#[test]
fn rendering_the_output_again_changes_nothing() {
    let t = LiquidJson::new(obj(vec![("{{ k }}", Json::String(s("{{ v }}")))]));
    let c = ctx(obj(vec![("k", Json::String(s("key"))), ("v", Json::Number(Number::PosInt(1)))]));
    let first = t.render(&c, &vec![text("key")]).unwrap();
    let again = LiquidJson::new(first.clone());
    let reqs = again.requests(&c);
    let outs = reqs.iter().map(|r| text(r)).collect::<Vec<_>>();
    same(&again.render(&c, &outs).unwrap(), &first);
    same(again.as_json(), &first);
}

#[test]
fn later_context_entries_win() {
    let c = Context {
        entries: vec![(s("v"), LiquidValue::Integer(1)), (s("v"), LiquidValue::Integer(2))],
    };
    let t = LiquidJson::new(Json::String(s("{{ v }}")));
    assert!(t.requests(&c).is_empty());
    same(&t.render(&c, &vec![]).unwrap(), &Json::Number(Number::PosInt(2)));
}

#[test]
fn kept_template_renders_like_the_template() {
    let doc = obj(vec![("key", Json::String(s("{{myval}}")))]);
    let kept = liquid_json::LiquidJsonValue::new(doc.clone());
    same(kept.as_json(), &doc);
    same(kept.inner().as_json(), &doc);
    let c = ctx(obj(vec![("myval", obj(vec![("deeper", Json::Number(Number::PosInt(10)))]))]));
    assert_eq!(kept.requests(&c), vec![s("key")]);
    let out = kept.render(&c, &vec![text("key")]).unwrap();
    same(&out, &obj(vec![("key", obj(vec![("deeper", Json::Number(Number::PosInt(10)))]))]));
}
