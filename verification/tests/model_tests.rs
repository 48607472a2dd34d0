use nm_codegen::dbus::property::{Property, WritableProperty};
use nm_codegen::{EnumDef, EnumValue, RenderConfig, ReprKind};

fn value(v: &str) -> EnumValue {
    EnumValue { name: "NAME".to_string(), value: v.to_string(), description: Vec::new(), since: None, deprecated: None }
}

fn enum_of(values: &[&str]) -> EnumDef {
    EnumDef {
        name: "NMThing".to_string(),
        description: Vec::new(),
        values: values.iter().map(|v| value(v)).collect(),
        source_url: None,
        since: None,
        deprecated: None,
    }
}

#[test]
fn hex_values() {
    assert!(value("0x1").is_hex());
    assert!(value("  0X10").is_hex());
    assert!(value("\t0x").is_hex());
    assert!(!value("1").is_hex());
    assert!(!value("x0").is_hex());
    assert!(!value("").is_hex());
    assert!(!value("00x1").is_hex());
}

#[test]
fn negative_values() {
    assert!(value("-1").has_negative_sign());
    assert!(value("  -0x2").has_negative_sign());
    assert!(!value("1").has_negative_sign());
    assert!(!value("1-").has_negative_sign());
    assert!(!value("").has_negative_sign());
}

#[test]
fn enum_is_bitflags_when_some_value_is_hex() {
    assert!(enum_of(&["0", "0x1", "2"]).is_bitflags_by_value());
    assert!(!enum_of(&["0", "1", "2"]).is_bitflags_by_value());
    assert!(!enum_of(&[]).is_bitflags_by_value());
}

#[test]
fn enum_has_negative_value_when_some_value_is() {
    assert!(enum_of(&["0", "-1"]).has_negative_value());
    assert!(!enum_of(&["0", "0x1"]).has_negative_value());
    assert!(!enum_of(&[]).has_negative_value());
}

#[test]
fn repr_kind_type_names() {
    assert_eq!(ReprKind::I32.rust_type(), "i32");
    assert_eq!(ReprKind::U32.rust_type(), "u32");
}

#[test]
fn default_render_config_has_no_overrides() {
    let c = RenderConfig::default();
    assert!(c.repr_overrides.is_empty());
    assert!(c.variant_name_overrides.is_empty());
    assert!(c.enum_prefix_overrides.is_empty());
}

#[test]
fn property_keeps_its_name_and_owner() {
    let owner = String::from("device");
    let p: Property<'_, String, u32> = Property::new(&owner, "State");
    assert_eq!(p.name(), "State");
    assert!(std::ptr::eq(p.owner(), &owner));
}

#[test]
fn writable_property_keeps_its_name_and_owner() {
    let owner = 7u8;
    let p: WritableProperty<'_, u8, bool> = WritableProperty::new(&owner, "Enabled");
    assert_eq!(p.name(), "Enabled");
    assert_eq!(*p.owner(), 7);
    let q: WritableProperty<'_, str, u32, i64> = WritableProperty::new("obj", "Mtu");
    assert_eq!(q.name(), "Mtu");
    assert_eq!(q.owner(), "obj");
}

#[test]
fn default_pages_are_empty() {
    let t = nm_codegen::model::types::TypesPage::default();
    assert!(t.description.is_empty() && t.source_url.is_none() && t.enums.is_empty());
    let i = nm_codegen::model::interface::InterfaceDef::default();
    assert_eq!(i.name, "");
    assert!(i.source_url.is_none() && i.since.is_none() && i.deprecated.is_none());
    assert!(i.object_path_family_label.is_none() && i.object_path_pattern.is_none());
    assert!(i.methods.is_empty() && i.properties.is_empty() && i.signals.is_empty());
}

#[test]
fn property_of_an_unsized_owner_keeps_its_name() {
    let p: Property<'_, str, String> = Property::new("device", "Interface");
    assert_eq!(p.name(), "Interface");
    assert_eq!(p.owner(), "device");
    let owners: &[u32] = &[1, 2];
    let w: WritableProperty<'_, [u32], u32> = WritableProperty::new(owners, "Mtu");
    assert_eq!(w.name(), "Mtu");
    assert_eq!(w.owner(), &[1, 2]);
}
