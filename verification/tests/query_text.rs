use google_bigquery::schema::{build_record_type, FieldDef, LocalType, RecordType};
use google_bigquery::values::BqType;

fn field(name: &str, ty: LocalType) -> FieldDef {
    FieldDef {
        local_name: name.to_string(),
        ty,
        primary_key: false,
        required: false,
        client: false,
        db_name: None,
        db_ignore: false,
    }
}

fn infos() -> RecordType {
    let defs = vec![
        FieldDef {
            primary_key: true,
            required: true,
            db_name: Some("Id".to_string()),
            ..field("row_id", LocalType::Plain(BqType::Int64))
        },
        FieldDef {
            client: true,
            ..field("client", LocalType::Unmapped)
        },
        field("info1", LocalType::Optional(BqType::Str)),
        FieldDef {
            db_name: Some("info".to_string()),
            ..field("info2", LocalType::Optional(BqType::Str))
        },
        field("info3", LocalType::Optional(BqType::Str)),
        FieldDef {
            db_name: Some("info4i".to_string()),
            ..field("int_info4", LocalType::Optional(BqType::Int64))
        },
        field("yes", LocalType::Optional(BqType::Bool)),
    ];
    build_record_type("Infos".to_string(), None, defs).unwrap()
}

#[test]
fn resolves_local_names() {
    let rt = infos();
    assert_eq!(rt.get_field_name("row_id").unwrap(), "Id");
    assert_eq!(rt.get_field_name("info1").unwrap(), "info1");
    assert_eq!(rt.get_field_name("info2").unwrap(), "info");
    assert_eq!(rt.get_field_name("int_info4").unwrap(), "info4i");
    let err = rt.get_field_name("nonsense").unwrap_err();
    assert_eq!(
        err.valid_fields,
        vec!["row_id", "info1", "info2", "info3", "int_info4", "yes"]
    );
    assert_eq!(rt.get_pk_name(), "Id");
    assert_eq!(rt.get_table_name(), "Infos");
}

#[test]
fn query_fields_include_pk_and_exclude_client() {
    let rt = infos();
    let pairs = rt.get_query_fields();
    assert_eq!(pairs.len(), 6);
    assert_eq!(pairs[0], ("row_id".to_string(), "Id".to_string()));
    for (local, _) in &pairs {
        assert_ne!(local, "client");
    }
}

#[test]
fn column_list_is_sorted() {
    let rt = infos();
    assert_eq!(
        rt.get_query_fields_str(),
        "Id, info, info1, info3, info4i, yes"
    );
}

#[test]
fn placeholder_list_matches_column_list() {
    let rt = infos();
    // stable across repeated calls
    assert_eq!(rt.get_query_fields_str(), rt.get_query_fields_str());
    assert_eq!(
        rt.get_query_fields_insert_str(),
        rt.get_query_fields_insert_str()
    );
    // position-for-position correspondence between the two sorted lists
    let col_text = rt.get_query_fields_str();
    let cols: Vec<&str> = col_text.split(", ").collect();
    let ph_text = rt.get_query_fields_insert_str();
    let phs: Vec<&str> = ph_text.split(", ").collect();
    assert_eq!(cols.len(), phs.len());
    for (c, p) in cols.iter().zip(phs.iter()) {
        assert_eq!(*p, format!("@__{}", c));
    }
}

#[test]
fn update_list_excludes_primary_key() {
    let rt = infos();
    assert_eq!(
        rt.get_query_fields_update_str(),
        "info = @__info, info1 = @__info1, info3 = @__info3, info4i = @__info4i, yes = @__yes"
    );
}

#[test]
fn where_clause_forms() {
    assert_eq!(
        google_bigquery::mapping::get_where_part("yes", true),
        "yes IS NULL"
    );
    assert_eq!(
        google_bigquery::mapping::get_where_part("yes", false),
        "yes = @__yes"
    );
    let rt = infos();
    assert_eq!(rt.get_base_where(), "Id = @__Id");
    assert_eq!(rt.get_identifier("test1"), "test1.Infos");
}
