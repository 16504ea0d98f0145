use google_bigquery::schema::{
    build_record_type, FieldDef, LocalType, SchemaDefinitionError,
};
use google_bigquery::values::BqType;

fn field(name: &str, ty: LocalType) -> FieldDef {
    FieldDef {
        local_name: name.to_string(),
        ty,
        primary_key: false,
        required: false,
        client: false,
        db_name: None,
        db_ignore: false,
    }
}

fn pk_field(name: &str) -> FieldDef {
    FieldDef {
        primary_key: true,
        required: true,
        ..field(name, LocalType::Plain(BqType::Int64))
    }
}

fn client_field(name: &str) -> FieldDef {
    FieldDef {
        client: true,
        ..field(name, LocalType::Unmapped)
    }
}

fn sample_defs() -> Vec<FieldDef> {
    vec![
        pk_field("row_id"),
        client_field("client"),
        field("info1", LocalType::Optional(BqType::Str)),
        FieldDef {
            db_name: Some("info".to_string()),
            ..field("info2", LocalType::Optional(BqType::Str))
        },
    ]
}

#[test]
fn builds_well_formed_record_type() {
    let rt = build_record_type("Infos".to_string(), None, sample_defs()).unwrap();
    assert!(rt.check_well_formed());
    assert_eq!(rt.table_name, "Infos");
    assert_eq!(rt.fields.len(), 4);
    assert_eq!(rt.pk_index, 0);
    assert_eq!(rt.client_index, 1);
    assert_eq!(rt.fields[0].remote_name, "row_id");
    assert!(rt.fields[0].required);
    assert_eq!(rt.fields[0].value_type, Some(BqType::Int64));
    assert_eq!(rt.fields[1].value_type, None);
    assert_eq!(rt.fields[3].remote_name, "info");
    assert_eq!(rt.fields[3].local_name, "info2");
    assert!(!rt.fields[3].required);
}

#[test]
fn table_name_override() {
    let rt =
        build_record_type("Infos".to_string(), Some("test_table".to_string()), sample_defs())
            .unwrap();
    assert_eq!(rt.table_name, "test_table");
}

#[test]
fn missing_primary_key_rejected() {
    let defs = vec![client_field("client"), field("a", LocalType::Optional(BqType::Str))];
    assert_eq!(
        build_record_type("T".to_string(), None, defs).err(),
        Some(SchemaDefinitionError::MissingPrimaryKey)
    );
}

#[test]
fn two_primary_keys_rejected() {
    let defs = vec![pk_field("a"), pk_field("b"), client_field("client")];
    assert_eq!(
        build_record_type("T".to_string(), None, defs).err(),
        Some(SchemaDefinitionError::MultiplePrimaryKeys)
    );
}

#[test]
fn missing_client_rejected() {
    let defs = vec![pk_field("a")];
    assert_eq!(
        build_record_type("T".to_string(), None, defs).err(),
        Some(SchemaDefinitionError::MissingClientHandle)
    );
}

#[test]
fn two_clients_rejected() {
    let defs = vec![pk_field("a"), client_field("c1"), client_field("c2")];
    assert_eq!(
        build_record_type("T".to_string(), None, defs).err(),
        Some(SchemaDefinitionError::MultipleClientHandles)
    );
}

#[test]
fn conflicting_roles_rejected() {
    // the one primary key and the one client handle must be distinct fields
    let both = FieldDef {
        client: true,
        ..pk_field("a")
    };
    assert_eq!(
        build_record_type("T".to_string(), None, vec![both]).err(),
        Some(SchemaDefinitionError::ConflictingRoles)
    );
}

#[test]
fn unresolvable_type_rejected() {
    // a non-required mapped field must hold an optional wrapping
    let defs = vec![
        pk_field("a"),
        client_field("c"),
        field("plain_but_not_required", LocalType::Plain(BqType::Str)),
    ];
    assert_eq!(
        build_record_type("T".to_string(), None, defs).err(),
        Some(SchemaDefinitionError::UnresolvableType)
    );
    // a required mapped field must hold the value type directly
    let defs2 = vec![
        pk_field("a"),
        client_field("c"),
        FieldDef {
            required: true,
            ..field("required_but_optional", LocalType::Optional(BqType::Str))
        },
    ];
    assert_eq!(
        build_record_type("T".to_string(), None, defs2).err(),
        Some(SchemaDefinitionError::UnresolvableType)
    );
}

#[test]
fn duplicate_remote_name_rejected() {
    let defs = vec![
        pk_field("a"),
        client_field("c"),
        FieldDef {
            db_name: Some("same".to_string()),
            ..field("x", LocalType::Optional(BqType::Str))
        },
        FieldDef {
            db_name: Some("same".to_string()),
            ..field("y", LocalType::Optional(BqType::Str))
        },
    ];
    assert_eq!(
        build_record_type("T".to_string(), None, defs).err(),
        Some(SchemaDefinitionError::DuplicateRemoteName)
    );
}

#[test]
fn ignored_fields_never_mapped() {
    let mut defs = sample_defs();
    defs.push(FieldDef {
        db_ignore: true,
        ..field("scratch", LocalType::Optional(BqType::Str))
    });
    let rt = build_record_type("T".to_string(), None, defs).unwrap();
    assert_eq!(rt.fields.len(), 4);
    for f in &rt.fields {
        assert_ne!(f.local_name, "scratch");
    }
    assert!(rt.get_field_name("scratch").is_err());
}

#[test]
fn uniqueness_invariant_checked_at_construction() {
    // an ignored duplicate marker does not count
    let mut defs = sample_defs();
    defs.push(FieldDef {
        db_ignore: true,
        ..pk_field("second_pk")
    });
    assert!(build_record_type("T".to_string(), None, defs).is_ok());
}
