use proxmox_backup::schema::{
    ApiStringFormat, BooleanSchema, IntegerSchema, ObjectSchema, ParamValue, Pattern, Schema,
    StringSchema, parse_boolean, parse_parameter_strings, parse_query_string,
};

#[test]
fn test_schema1() {
    let schema = Schema::Object(ObjectSchema::new("TEST"));

    let description = match &schema {
        Schema::Object(o) => &o.description,
        _ => panic!("expected an object schema"),
    };
    println!("TEST Schema: {:?}", description);
}

#[test]
fn test_query_string() {
    let schema = ObjectSchema::new("Parameters.").required(
        "name",
        Schema::String(StringSchema::new("Name.")),
    );

    let res = parse_query_string("", &schema, true);
    assert!(res.is_err());

    let schema = ObjectSchema::new("Parameters.").optional(
        "name",
        Schema::String(StringSchema::new("Name.")),
    );

    let res = parse_query_string("", &schema, true);
    assert!(res.is_ok());

    // TEST min_length and max_length

    let schema = ObjectSchema::new("Parameters.").required(
        "name",
        Schema::String(StringSchema::new("Name.").min_length(5).max_length(10)),
    );

    let res = parse_query_string("name=abcd", &schema, true);
    assert!(res.is_err());

    let res = parse_query_string("name=abcde", &schema, true);
    assert!(res.is_ok());

    let res = parse_query_string("name=abcdefghijk", &schema, true);
    assert!(res.is_err());

    let res = parse_query_string("name=abcdefghij", &schema, true);
    assert!(res.is_ok());

    // TEST regex pattern

    let schema = ObjectSchema::new("Parameters.").required(
        "name",
        Schema::String(
            StringSchema::new("Name.").format(ApiStringFormat::Pattern(
                Pattern::new("test").unwrap(),
            )),
        ),
    );

    let res = parse_query_string("name=abcd", &schema, true);
    assert!(res.is_err());

    let res = parse_query_string("name=ateststring", &schema, true);
    assert!(res.is_ok());

    let schema = ObjectSchema::new("Parameters.").required(
        "name",
        Schema::String(
            StringSchema::new("Name.").format(ApiStringFormat::Pattern(
                Pattern::new("^test$").unwrap(),
            )),
        ),
    );

    let res = parse_query_string("name=ateststring", &schema, true);
    assert!(res.is_err());

    let res = parse_query_string("name=test", &schema, true);
    assert!(res.is_ok());

    // TEST string enums

    let schema = ObjectSchema::new("Parameters.").required(
        "name",
        Schema::String(
            StringSchema::new("Name.").format(ApiStringFormat::Enum(vec![
                "ev1".to_string(),
                "ev2".to_string(),
            ])),
        ),
    );

    let res = parse_query_string("name=noenum", &schema, true);
    assert!(res.is_err());

    let res = parse_query_string("name=ev1", &schema, true);
    assert!(res.is_ok());

    let res = parse_query_string("name=ev2", &schema, true);
    assert!(res.is_ok());

    let res = parse_query_string("name=ev3", &schema, true);
    assert!(res.is_err());
}

#[test]
fn test_query_integer() {
    let schema = ObjectSchema::new("Parameters.").required(
        "count",
        Schema::Integer(IntegerSchema::new("Count.")),
    );

    let res = parse_query_string("", &schema, true);
    assert!(res.is_err());

    let schema = ObjectSchema::new("Parameters.").optional(
        "count",
        Schema::Integer(IntegerSchema::new("Count.").minimum(-3).maximum(50)),
    );

    let res = parse_query_string("", &schema, true);
    assert!(res.is_ok());

    let res = parse_query_string("count=abc", &schema, false);
    assert!(res.is_err());

    let res = parse_query_string("count=30", &schema, false);
    assert!(res.is_ok());

    let res = parse_query_string("count=-1", &schema, false);
    assert!(res.is_ok());

    let res = parse_query_string("count=300", &schema, false);
    assert!(res.is_err());

    let res = parse_query_string("count=-30", &schema, false);
    assert!(res.is_err());

    let res = parse_query_string("count=50", &schema, false);
    assert!(res.is_ok());

    let res = parse_query_string("count=-3", &schema, false);
    assert!(res.is_ok());
}

#[test]
fn test_query_boolean() {
    let schema = ObjectSchema::new("Parameters.").required(
        "force",
        Schema::Boolean(BooleanSchema::new("Force.")),
    );

    let res = parse_query_string("", &schema, true);
    assert!(res.is_err());

    let schema = ObjectSchema::new("Parameters.").optional(
        "force",
        Schema::Boolean(BooleanSchema::new("Force.")),
    );

    let res = parse_query_string("", &schema, true);
    assert!(res.is_ok());

    let res = parse_query_string("a=b", &schema, true);
    assert!(res.is_err());

    let res = parse_query_string("force", &schema, true);
    assert!(res.is_err());

    let res = parse_query_string("force=yes", &schema, true);
    assert!(res.is_ok());
    let res = parse_query_string("force=1", &schema, true);
    assert!(res.is_ok());
    let res = parse_query_string("force=On", &schema, true);
    assert!(res.is_ok());
    let res = parse_query_string("force=TRUE", &schema, true);
    assert!(res.is_ok());
    let res = parse_query_string("force=TREU", &schema, true);
    assert!(res.is_err());

    let res = parse_query_string("force=NO", &schema, true);
    assert!(res.is_ok());
    let res = parse_query_string("force=0", &schema, true);
    assert!(res.is_ok());
    let res = parse_query_string("force=off", &schema, true);
    assert!(res.is_ok());
    let res = parse_query_string("force=False", &schema, true);
    assert!(res.is_ok());
}

#[test]
fn boolean_parsing() {
    assert_eq!(parse_boolean("1"), Ok(true));
    assert_eq!(parse_boolean("On"), Ok(true));
    assert_eq!(parse_boolean("YES"), Ok(true));
    assert_eq!(parse_boolean("true"), Ok(true));
    assert_eq!(parse_boolean("0"), Ok(false));
    assert_eq!(parse_boolean("off"), Ok(false));
    assert_eq!(parse_boolean("No"), Ok(false));
    assert_eq!(parse_boolean("FALSE"), Ok(false));
    assert!(parse_boolean("maybe").is_err());
}

#[test]
fn duplicate_parameter_is_rejected() {
    let schema = ObjectSchema::new("Parameters.").optional(
        "name",
        Schema::String(StringSchema::new("Name.")),
    );
    let res = parse_query_string("name=a&name=b", &schema, false);
    assert!(res.is_err());
}

#[test]
fn additional_properties_accept_unknown_keys() {
    let schema = ObjectSchema::new("Parameters.").additional_properties(true);
    let res = parse_query_string("anything=goes", &schema, false);
    assert!(res.is_ok());
}

#[test]
fn accepted_parameters_keep_order_and_values() {
    let schema = ObjectSchema::new("Parameters.")
        .required("flag", Schema::Boolean(BooleanSchema::new("Flag.")))
        .required("count", Schema::Integer(IntegerSchema::new("Count.")))
        .optional("name", Schema::String(StringSchema::new("Name.")));

    let data = vec![
        ("count".to_owned(), "17".to_owned()),
        ("flag".to_owned(), "yes".to_owned()),
        ("name".to_owned(), "backup".to_owned()),
    ];
    let params = match parse_parameter_strings(&data, &schema, true) {
        Ok(p) => p,
        Err(_) => panic!("expected the parameters to validate"),
    };
    assert_eq!(params.len(), 3);
    assert_eq!(params[0].0, "count");
    assert!(matches!(params[0].1, ParamValue::Integer(17)));
    assert_eq!(params[1].0, "flag");
    assert!(matches!(params[1].1, ParamValue::Bool(true)));
    assert_eq!(params[2].0, "name");
    match &params[2].1 {
        ParamValue::String(s) => assert_eq!(s, "backup"),
        _ => panic!("expected a string value"),
    }
}
