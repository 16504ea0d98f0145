use google_bigquery::rows::{
    create_with_pk, DataIntegrityError, QueryResult, RecordInstance, TableError,
};
use google_bigquery::schema::{build_record_type, FieldDef, LocalType, RecordType};
use google_bigquery::values::{BqType, Value};

fn field(name: &str, ty: LocalType) -> FieldDef {
    FieldDef {
        local_name: name.to_string(),
        ty,
        primary_key: false,
        required: false,
        client: false,
        db_name: None,
        db_ignore: false,
    }
}

fn infos() -> RecordType {
    let defs = vec![
        FieldDef {
            primary_key: true,
            required: true,
            db_name: Some("Id".to_string()),
            ..field("row_id", LocalType::Plain(BqType::Int64))
        },
        FieldDef {
            client: true,
            ..field("client", LocalType::Unmapped)
        },
        field("info1", LocalType::Optional(BqType::Str)),
        FieldDef {
            db_name: Some("info".to_string()),
            ..field("info2", LocalType::Optional(BqType::Str))
        },
        field("info3", LocalType::Optional(BqType::Str)),
        FieldDef {
            db_name: Some("info4i".to_string()),
            ..field("int_info4", LocalType::Optional(BqType::Int64))
        },
        field("yes", LocalType::Optional(BqType::Bool)),
    ];
    build_record_type("Infos".to_string(), None, defs).unwrap()
}

fn schema() -> Vec<String> {
    ["Id", "info1", "info", "info3", "info4i", "yes"]
        .iter()
        .map(|s| s.to_string())
        .collect()
}

fn row(cells: Vec<Option<&str>>) -> Vec<Option<String>> {
    cells.into_iter().map(|c| c.map(|s| s.to_string())).collect()
}

fn response(rows: Vec<Vec<Option<String>>>) -> QueryResult {
    QueryResult {
        schema: Some(schema()),
        rows: Some(rows),
    }
}

fn count_response(count: &str) -> QueryResult {
    QueryResult {
        schema: Some(vec!["f0_".to_string()]),
        rows: Some(vec![vec![Some(count.to_string())]]),
    }
}

fn value_of(rt: &RecordType, inst: &RecordInstance, local: &str) -> Option<Value> {
    for (i, f) in rt.fields.iter().enumerate() {
        if f.local_name == local {
            return inst.values[i].clone();
        }
    }
    panic!("no field named {local}");
}

#[test]
fn from_pk() {
    let rt = infos();
    let mut inst = create_with_pk(&rt, &Value::Int64(3));
    assert!(inst.check_conforms(&rt));
    assert_eq!(value_of(&rt, &inst, "row_id"), Some(Value::Int64(3)));
    assert_eq!(value_of(&rt, &inst, "client"), None);
    assert_eq!(value_of(&rt, &inst, "info1"), None);

    let query = rt.load_from_bigquery_query("test1");
    assert_eq!(
        query,
        "select Id, info, info1, info3, info4i, yes from test1.Infos where Id = @__Id limit 1"
    );
    let params = rt.pk_only_params(&inst);
    assert_eq!(params.len(), 1);
    assert_eq!(params[0].name, "__Id");
    assert_eq!(params[0].param_type, "INT64");
    assert_eq!(params[0].value, Some("3".to_string()));

    let res = response(vec![row(vec![
        Some("3"),
        Some("a"),
        None,
        Some("c"),
        None,
        None,
    ])]);
    rt.load_from_bigquery_apply(&mut inst, &res).unwrap();
    assert_eq!(value_of(&rt, &inst, "row_id"), Some(Value::Int64(3)));
    assert_eq!(
        value_of(&rt, &inst, "info1"),
        Some(Value::Str("a".to_string()))
    );
    assert_eq!(value_of(&rt, &inst, "info2"), None);
    assert_eq!(
        value_of(&rt, &inst, "info3"),
        Some(Value::Str("c".to_string()))
    );
    assert_eq!(value_of(&rt, &inst, "int_info4"), None);
    assert_eq!(value_of(&rt, &inst, "yes"), None);
}

#[test]
fn load_rejects_wrong_row_counts() {
    let rt = infos();
    let mut inst = create_with_pk(&rt, &Value::Int64(3));
    let none = QueryResult {
        schema: Some(schema()),
        rows: None,
    };
    assert!(matches!(
        rt.load_from_bigquery_apply(&mut inst, &none),
        Err(TableError::DataIntegrity(DataIntegrityError::NoRows))
    ));
    let two = response(vec![
        row(vec![Some("1"), None, None, None, None, None]),
        row(vec![Some("2"), None, None, None, None, None]),
    ]);
    assert!(matches!(
        rt.load_from_bigquery_apply(&mut inst, &two),
        Err(TableError::DataIntegrity(DataIntegrityError::WrongRowCount))
    ));
}

#[test]
fn load_by_field() {
    let rt = infos();

    // filtering on info1 = "a" finds the one matching row
    let (query, params) = rt
        .load_by_field_plan(
            "test1",
            "info1",
            &Some(Value::Str("a".to_string())),
            10,
        )
        .unwrap();
    assert_eq!(
        query,
        "select Id, info, info1, info3, info4i, yes from test1.Infos where info1 = @__info1 limit 10"
    );
    assert_eq!(params.len(), 1);
    assert_eq!(params[0].name, "__info1");
    assert_eq!(params[0].param_type, "STRING");
    assert_eq!(params[0].value, Some("a".to_string()));
    let res = response(vec![row(vec![
        Some("3"),
        Some("a"),
        None,
        Some("c"),
        None,
        None,
    ])]);
    let q = rt.load_by_custom_query_apply(&res).unwrap();
    assert_eq!(q.len(), 1);
    assert_eq!(value_of(&rt, &q[0], "row_id"), Some(Value::Int64(3)));
    assert_eq!(
        value_of(&rt, &q[0], "info3"),
        Some(Value::Str("c".to_string()))
    );

    // filtering on yes = TRUE finds all three matching rows
    let (query, params) = rt
        .load_by_field_plan("test1", "yes", &Some(Value::Bool(true)), 10)
        .unwrap();
    assert!(query.contains("where yes = @__yes limit 10"));
    assert_eq!(params[0].name, "__yes");
    assert_eq!(params[0].param_type, "BOOL");
    assert_eq!(params[0].value, Some("TRUE".to_string()));
    let res = response(vec![
        row(vec![Some("1"), None, None, Some("x3"), None, Some("TRUE")]),
        row(vec![Some("19"), None, None, Some("cc"), None, Some("TRUE")]),
        row(vec![
            Some("123123"),
            None,
            None,
            Some("cc"),
            None,
            Some("TRUE"),
        ]),
    ]);
    let q = rt.load_by_custom_query_apply(&res).unwrap();
    assert_eq!(q.len(), 3);
    assert_eq!(value_of(&rt, &q[0], "row_id"), Some(Value::Int64(1)));
    assert_eq!(
        value_of(&rt, &q[0], "info3"),
        Some(Value::Str("x3".to_string()))
    );
    assert_eq!(value_of(&rt, &q[1], "row_id"), Some(Value::Int64(19)));
    assert_eq!(
        value_of(&rt, &q[1], "info3"),
        Some(Value::Str("cc".to_string()))
    );
    assert_eq!(value_of(&rt, &q[2], "row_id"), Some(Value::Int64(123123)));
    assert_eq!(
        value_of(&rt, &q[2], "info3"),
        Some(Value::Str("cc".to_string()))
    );
    assert_eq!(value_of(&rt, &q[2], "yes"), Some(Value::Bool(true)));

    // a predicate matching zero rows returns an empty collection
    let (_, _) = rt
        .load_by_field_plan(
            "test1",
            "info1",
            &Some(Value::Str("aosdinsofnpsngusn".to_string())),
            10,
        )
        .unwrap();
    let empty = response(vec![]);
    let q = rt.load_by_custom_query_apply(&empty).unwrap();
    assert_eq!(q.len(), 0);
}

#[test]
fn load_by_field_none_param() {
    let rt = infos();
    // filtering for NULL uses the IS-NULL form and binds no parameter
    let (query, params) = rt.load_by_field_plan("test1", "yes", &None, 10).unwrap();
    assert_eq!(
        query,
        "select Id, info, info1, info3, info4i, yes from test1.Infos where yes IS NULL limit 10"
    );
    assert_eq!(params.len(), 0);
    let res = response(vec![row(vec![
        Some("3"),
        Some("a"),
        None,
        Some("c"),
        None,
        None,
    ])]);
    let q = rt.load_by_custom_query_apply(&res).unwrap();
    assert_eq!(q.len(), 1);
}

#[test]
fn load_by_field_unknown_name() {
    let rt = infos();
    match rt.load_by_field_plan("test1", "nope", &None, 10) {
        Err(TableError::FieldResolution(e)) => {
            assert_eq!(
                e.valid_fields,
                vec!["row_id", "info1", "info2", "info3", "int_info4", "yes"]
            );
        }
        other => panic!("expected a field resolution error, got {other:?}"),
    }
}

#[test]
fn save() {
    let rt = infos();
    let mut inst = create_with_pk(&rt, &Value::Int64(3));
    let res = response(vec![row(vec![
        Some("3"),
        Some("a"),
        None,
        Some("c"),
        None,
        None,
    ])]);
    rt.load_from_bigquery_apply(&mut inst, &res).unwrap();

    // probe text
    assert_eq!(
        rt.save_probe_query("test1"),
        "select count(*) from test1.Infos where Id = @__Id limit 1"
    );

    // existence probe: count 1 leads to an update scoped by the key
    let exists = google_bigquery::facade::save_row_exists(&count_response("1")).unwrap();
    assert!(exists);
    let update = rt.save_statement(true, "test1");
    assert_eq!(
        update,
        "update test1.Infos set info = @__info, info1 = @__info1, info3 = @__info3, \
         info4i = @__info4i, yes = @__yes where Id = @__Id"
    );
    assert!(update.contains("info = @__info"));
    assert!(!update.contains("info2"));
    assert!(!update.contains("Id = @__Id,"));

    // existence probe: count 0 leads to an insert with aligned lists
    let exists = google_bigquery::facade::save_row_exists(&count_response("0")).unwrap();
    assert!(!exists);
    let insert = rt.save_statement(false, "test1");
    assert_eq!(
        insert,
        "insert into test1.Infos (Id, info, info1, info3, info4i, yes) \
         values(@__Id, @__info, @__info1, @__info3, @__info4i, @__yes)"
    );
    let cols_part = insert
        .split('(')
        .nth(1)
        .unwrap()
        .split(')')
        .next()
        .unwrap();
    let phs_part = insert
        .split("values(")
        .nth(1)
        .unwrap()
        .trim_end_matches(')');
    let cols: Vec<&str> = cols_part.split(", ").collect();
    let phs: Vec<&str> = phs_part.split(", ").collect();
    assert_eq!(cols.len(), phs.len());
    for (c, p) in cols.iter().zip(phs.iter()) {
        assert_eq!(*p, format!("@__{}", c));
    }

    // the full parameter list binds every mapped field, the key included
    let params = rt.get_all_query_parameters(&inst);
    assert_eq!(params.len(), 6);
    assert_eq!(params[0].name, "__Id");
    assert_eq!(params[0].value, Some("3".to_string()));
    assert_eq!(params[1].name, "__info1");
    assert_eq!(params[1].value, Some("a".to_string()));
    assert_eq!(params[2].name, "__info");
    assert_eq!(params[2].value, None);

    // inconsistent probe responses are fatal
    assert!(matches!(
        google_bigquery::facade::save_row_exists(&count_response("2")),
        Err(TableError::DataIntegrity(DataIntegrityError::BadCount))
    ));
    assert!(matches!(
        google_bigquery::facade::save_row_exists(&QueryResult {
            schema: None,
            rows: None
        }),
        Err(TableError::DataIntegrity(DataIntegrityError::NoRows))
    ));
}

#[test]
fn empty_result_is_not_an_error() {
    let rt = infos();
    // an absent result set decodes to an empty collection
    let res = QueryResult {
        schema: None,
        rows: None,
    };
    let q = rt.load_by_custom_query_apply(&res).unwrap();
    assert_eq!(q.len(), 0);
}

#[test]
fn missing_schema_is_an_integrity_error() {
    let rt = infos();
    // rows without a schema cannot be decoded
    let res = QueryResult {
        schema: None,
        rows: Some(vec![row(vec![Some("3"), None, None, None, None, None])]),
    };
    assert!(matches!(
        rt.load_by_custom_query_apply(&res),
        Err(TableError::DataIntegrity(DataIntegrityError::MissingSchema))
    ));
    let mut inst = create_with_pk(&rt, &Value::Int64(3));
    assert!(matches!(
        rt.load_from_bigquery_apply(&mut inst, &res),
        Err(TableError::DataIntegrity(DataIntegrityError::MissingSchema))
    ));
}

#[test]
fn probe_cell_must_be_present() {
    // the probe's single row must carry a present count cell
    let empty_row = QueryResult {
        schema: Some(vec!["f0_".to_string()]),
        rows: Some(vec![vec![]]),
    };
    assert!(matches!(
        google_bigquery::facade::save_row_exists(&empty_row),
        Err(TableError::DataIntegrity(DataIntegrityError::MissingCell))
    ));
    let null_cell = QueryResult {
        schema: Some(vec!["f0_".to_string()]),
        rows: Some(vec![vec![None]]),
    };
    assert!(matches!(
        google_bigquery::facade::save_row_exists(&null_cell),
        Err(TableError::DataIntegrity(DataIntegrityError::MissingCell))
    ));
    let bad_count = QueryResult {
        schema: Some(vec!["f0_".to_string()]),
        rows: Some(vec![vec![Some("x".to_string())]]),
    };
    assert!(matches!(
        google_bigquery::facade::save_row_exists(&bad_count),
        Err(TableError::ValueFormat(_))
    ));
}

#[test]
fn decode_failures_surface() {
    let rt = infos();
    // a row whose required key cell is absent cannot decode
    let res = response(vec![row(vec![None, None, None, None, None, None])]);
    assert!(matches!(
        rt.load_by_custom_query_apply(&res),
        Err(TableError::DataIntegrity(DataIntegrityError::RequiredCellAbsent))
    ));
    // a schema missing an expected column is an integrity error
    let res = QueryResult {
        schema: Some(vec!["Id".to_string()]),
        rows: Some(vec![vec![Some("3".to_string())]]),
    };
    assert!(matches!(
        rt.load_by_custom_query_apply(&res),
        Err(TableError::DataIntegrity(DataIntegrityError::MissingColumn))
    ));
}
