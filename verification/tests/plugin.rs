use physim::plugin::discover::{
    abi_compatible, element_db, is_plugin_extension, plugin_element_names, plugin_search_dirs,
    RegisteredElement,
};
use physim::plugin::meta::{escape_null, replace_nul_bytes, ElementMeta};
use physim::plugin::{create_element_symbol, register_symbol, transform_api_symbol, ElementKind};

fn meta(name: &str, plugin: &str) -> ElementMeta {
    ElementMeta::new(ElementKind::Transform, name, plugin, "0.1", "MIT", "me", "blurb", "repo")
}

#[test]
fn registered_element_getters() {
    let e = RegisteredElement::new(
        meta("astro", "astro"),
        "/lib/libastro.so",
        vec![("theta".to_string(), "opening angle".to_string())],
    );
    assert_eq!(e.get_lib_path(), "/lib/libastro.so");
    assert_eq!(e.get_name(), "astro");
    assert_eq!(e.get_element_kind(), ElementKind::Transform);
    assert_eq!(e.get_properties().len(), 1);
    assert_eq!(e.get_info().plugin, "astro");
}

#[test]
fn element_db_keeps_the_last_of_a_name() {
    let a = RegisteredElement::new(meta("astro", "first"), "/a.so", vec![]);
    let b = RegisteredElement::new(meta("cube", "first"), "/b.so", vec![]);
    let c = RegisteredElement::new(meta("astro", "second"), "/c.so", vec![]);
    let db = element_db(vec![a, b, c]);
    assert_eq!(db.get("astro").map(|e| e.get_lib_path()), Some("/c.so"));
    assert_eq!(db.get("cube").map(|e| e.get_lib_path()), Some("/b.so"));
    assert!(db.get("verlet").is_none());
    assert_eq!(db.elements().len(), 2);
}

#[test]
fn plugin_discovery_decisions() {
    assert!(is_plugin_extension("so"));
    assert!(is_plugin_extension("dylib"));
    assert!(is_plugin_extension("dll"));
    assert!(!is_plugin_extension("txt"));
    assert!(abi_compatible("C", "rustc 1.80"));
    assert!(abi_compatible("rustc 1.80", "rustc 1.80"));
    assert!(!abi_compatible("rustc 1.79", "rustc 1.80"));
    assert_eq!(plugin_element_names("astro,cube"), vec!["astro", "cube"]);
    assert_eq!(plugin_search_dirs("/a:/b"), vec!["/a", "/b"]);
}

#[test]
fn symbol_names() {
    assert_eq!(register_symbol("astro"), "astro_register");
    assert_eq!(create_element_symbol("cube"), "cube_create_element");
    assert_eq!(transform_api_symbol("astro"), "astro_get_api");
}

#[test]
fn meta_and_nul_handling() {
    let m = meta("n", "p");
    assert_eq!(m.name, "n");
    assert_eq!(m.repo, "repo");
    assert_eq!(m.duplicate().author, "me");
    assert_eq!(escape_null("fake\0sink"), "fakesink");
    let mut bytes = vec![1u8, 0, 2, 0];
    replace_nul_bytes(&mut bytes);
    assert_eq!(bytes, vec![1, 0xff, 2, 0xff]);
}

#[test]
fn kind_labels() {
    assert_eq!(ElementKind::Initialiser.label(), "initialiser");
    assert_eq!(ElementKind::Render.label(), "renderer");
    assert_eq!(ElementKind::Transmute.label(), "transmute");
    assert_eq!(ElementKind::Integrator.label(), "integrator");
}
