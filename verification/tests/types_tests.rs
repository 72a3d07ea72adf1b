use std::collections::HashMap;
use std::sync::Arc;

use baml::ast::{ClassId, EnumId, EnumValueId, FieldId, SerializerFieldId, VariantConfigId, VariantSerializerId};
use baml::diagnostics::Span;
use baml::source_file::SourceFile;
use baml::types::{
    ClassAttributes, ContantDelayStrategy, DynamicFieldId, DynamicStringAttributes,
    EnumAttributes, Printer, PrinterType, RefinedFieldId, SerializerAttributes, StaticFieldId,
    StaticStringAttributes, StaticType, TemplateStringProperties, ToStringAttributes, Types,
    VariantAttributes,
};

#[test]
fn static_type_names() {
    let all = [
        (StaticType::Int, "Int"),
        (StaticType::BigInt, "BigInt"),
        (StaticType::Float, "Float"),
        (StaticType::Boolean, "Boolean"),
        (StaticType::String, "String"),
        (StaticType::Json, "Json"),
        (StaticType::Bytes, "Bytes"),
    ];
    for (t, name) in all {
        assert_eq!(t.as_str(), name);
        assert_eq!(StaticType::try_from_str(name), Some(t));
        assert_eq!(t.is_bytes(), name == "Bytes");
    }
    assert_eq!(StaticType::try_from_str("int"), None);
    assert_eq!(StaticType::try_from_str(""), None);
}

#[test]
fn field_ids_from_positions() {
    assert_eq!(DynamicFieldId::from(FieldId(3)).get(), 3);
    assert_eq!(DynamicFieldId::from(EnumValueId(4)).get(), 4);
    assert_eq!(DynamicFieldId::from(SerializerFieldId(5)).get(), 5);
    assert_eq!(StaticFieldId::from(FieldId(6)).get(), 6);
    assert_eq!(StaticFieldId::from(EnumValueId(7)).get(), 7);
    assert_eq!(StaticFieldId::from(SerializerFieldId(8)).get(), 8);
    assert_eq!(DynamicFieldId::from(FieldId(3)), DynamicFieldId::from(EnumValueId(3)));
}

fn fixed() -> ToStringAttributes {
    ToStringAttributes::Static(StaticStringAttributes { skip: None, alias: Some("a".to_string()), meta: vec![] })
}

fn dynamic() -> ToStringAttributes {
    ToStringAttributes::Dynamic(DynamicStringAttributes { code: vec![] })
}

#[test]
fn refine_fields_by_their_decorations() {
    let mut types = Types::new();
    let mut fields = HashMap::new();
    fields.insert(0u32, fixed());
    fields.insert(1u32, dynamic());
    types.class_attributes.insert(2, ClassAttributes { field_serilizers: fields, serilizer: None });
    assert_eq!(
        types.refine_class_field(ClassId(2), FieldId(0)),
        RefinedFieldId::Static(StaticFieldId::from(FieldId(0)))
    );
    assert_eq!(
        types.refine_class_field(ClassId(2), FieldId(1)),
        RefinedFieldId::Dynamic(DynamicFieldId::from(FieldId(1)))
    );
    assert_eq!(
        types.refine_class_field(ClassId(2), FieldId(9)),
        RefinedFieldId::Static(StaticFieldId::from(FieldId(9)))
    );
    assert_eq!(
        types.refine_class_field(ClassId(3), FieldId(1)),
        RefinedFieldId::Static(StaticFieldId::from(FieldId(1)))
    );

    let mut values = HashMap::new();
    values.insert(1u32, dynamic());
    types.enum_attributes.insert(5, EnumAttributes { value_serilizers: values, serilizer: None });
    assert_eq!(
        types.refine_enum_value(EnumId(5), EnumValueId(1)),
        RefinedFieldId::Dynamic(DynamicFieldId::from(EnumValueId(1)))
    );
    assert_eq!(
        types.refine_enum_value(EnumId(5), EnumValueId(0)),
        RefinedFieldId::Static(StaticFieldId::from(EnumValueId(0)))
    );

    let mut overrides = HashMap::new();
    overrides.insert(4u32, dynamic());
    let mut serializers = HashMap::new();
    serializers.insert(0u32, SerializerAttributes { field_serilizers: overrides, serilizer: None });
    types.variant_attributes.insert(7, VariantAttributes { serializers });
    assert_eq!(
        types.refine_serializer_field(VariantConfigId(7), VariantSerializerId(0), SerializerFieldId(4)),
        RefinedFieldId::Dynamic(DynamicFieldId::from(SerializerFieldId(4)))
    );
    assert_eq!(
        types.refine_serializer_field(VariantConfigId(7), VariantSerializerId(1), SerializerFieldId(4)),
        RefinedFieldId::Static(StaticFieldId::from(SerializerFieldId(4)))
    );
    assert_eq!(
        types.refine_serializer_field(VariantConfigId(8), VariantSerializerId(0), SerializerFieldId(4)),
        RefinedFieldId::Static(StaticFieldId::from(SerializerFieldId(4)))
    );
}

#[test]
fn printer_template() {
    let span = Span::new(0, 0, 0);
    let for_type = PrinterType::Type(Printer { template: ("type template".to_string(), span) });
    let for_enum = PrinterType::Enum(Printer { template: ("enum template".to_string(), span) });
    assert_eq!(for_type.template(), "type template");
    assert_eq!(for_enum.template(), "enum template");
    let _ = ContantDelayStrategy { delay_ms: 200 };
    let _ = TemplateStringProperties { template: "t".to_string() };
}

#[test]
fn source_files_from_text() {
    assert_eq!(SourceFile::from_text("enum A {}").as_str(), "enum A {}");
    assert_eq!(SourceFile::from("class B {}").as_str(), "class B {}");
    assert_eq!(SourceFile::from(&"class C {}".to_string()).as_str(), "class C {}");
    assert_eq!(SourceFile::from("class D {}".to_string()).as_str(), "class D {}");
    let shared: Arc<str> = Arc::from("class E {}");
    assert_eq!(SourceFile::from(shared).as_str(), "class E {}");
    assert_eq!(SourceFile::from_text("").as_str(), "");
    let copy = SourceFile::from_text("x").clone();
    assert_eq!(copy.as_str(), "x");
}

#[test]
fn source_files() {
    let fixed = SourceFile::new_static("class A {}");
    assert_eq!(fixed.as_str(), "class A {}");
    let shared = SourceFile::new_allocated(Arc::from("enum B {}"));
    assert_eq!(shared.as_str(), "enum B {}");
    assert!(fixed == SourceFile::new_allocated(Arc::from("class A {}")));
    assert!(fixed != shared);
}
