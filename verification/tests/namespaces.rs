use atom_syndication::chars::{valid_ncname, valid_prefix};
use atom_syndication::codec::{indentation_fits_events, read_document, write_events};
use atom_syndication::extension::{ExpandedName, Extension, ExtensionAttribute, ExtensionContent};
use atom_syndication::extension_writer::serialized_name;
use atom_syndication::Category;
use atom_syndication::namespace::{
    apply_namespace_declaration, expanded_name,
    is_extension, namespace_scope, push_text, XML_NAMESPACE,
};
use atom_syndication::scope::NamespaceScope;
use atom_syndication::xml::{XmlAttribute, XmlEvent};
use atom_syndication::{Entry, Error, Feed, NamespaceError, WriteConfig, XmlError};

fn namespace_error(kind: NamespaceError) -> Error {
    Error::Xml(XmlError::Namespace(kind))
}

fn attribute(key: &str, value: &str) -> XmlAttribute {
    XmlAttribute { key: key.to_string(), value: value.to_string() }
}

#[test]
fn scope_insert_get_remove() {
    let mut scope = NamespaceScope::new();
    assert_eq!(scope.len(), 0);
    scope.insert(Some("b".to_string()), "urn:b".to_string());
    scope.insert(None, "urn:default".to_string());
    scope.insert(Some("a".to_string()), "urn:a".to_string());
    scope.insert(Some("b".to_string()), "urn:b2".to_string());
    assert_eq!(scope.len(), 3);
    assert_eq!(scope.binding_at(0).prefix, None);
    assert_eq!(scope.binding_at(1).prefix.as_deref(), Some("a"));
    assert_eq!(scope.binding_at(2).prefix.as_deref(), Some("b"));
    assert_eq!(scope.get(&Some("b".to_string())).map(|s| s.as_str()), Some("urn:b2"));
    scope.remove(&Some("a".to_string()));
    assert!(!scope.contains_key(&Some("a".to_string())));
    assert!(scope.contains_key(&None));
    assert_eq!(scope.len(), 2);
}

#[test]
fn declarations_update_the_scope() {
    let mut scope = NamespaceScope::new();
    assert!(apply_namespace_declaration(&mut scope, Some("x"), "urn:x".to_string()).is_ok());
    assert_eq!(scope.get(&Some("x".to_string())).map(|s| s.as_str()), Some("urn:x"));
    assert!(apply_namespace_declaration(&mut scope, None, "urn:d".to_string()).is_ok());
    assert!(scope.contains_key(&None));
    assert!(apply_namespace_declaration(&mut scope, None, String::new()).is_ok());
    assert!(!scope.contains_key(&None));
}

#[test]
fn declaration_errors() {
    let mut scope = NamespaceScope::new();
    assert_eq!(
        apply_namespace_declaration(&mut scope, Some("xml"), "urn:other".to_string()),
        Err(namespace_error(NamespaceError::XmlPrefixMismatch))
    );
    assert_eq!(
        apply_namespace_declaration(&mut scope, Some("p"), XML_NAMESPACE.to_string()),
        Err(namespace_error(NamespaceError::XmlNamespaceMismatch))
    );
    assert_eq!(
        apply_namespace_declaration(&mut scope, Some("p"), String::new()),
        Err(namespace_error(NamespaceError::EmptyPrefixedDeclaration))
    );
    assert_eq!(
        apply_namespace_declaration(&mut scope, Some("xmlns"), "urn:x".to_string()),
        Err(namespace_error(NamespaceError::InvalidPrefix))
    );
    assert_eq!(
        apply_namespace_declaration(&mut scope, Some("XmLfoo"), "urn:x".to_string()),
        Err(namespace_error(NamespaceError::InvalidPrefix))
    );
    assert_eq!(
        apply_namespace_declaration(&mut scope, Some("1p"), "urn:x".to_string()),
        Err(namespace_error(NamespaceError::InvalidPrefix))
    );
    assert!(apply_namespace_declaration(&mut scope, Some("xml"), XML_NAMESPACE.to_string()).is_ok());
    assert_eq!(scope.len(), 1);
}

#[test]
fn element_scope_applies_declarations_in_order() {
    let inherited = NamespaceScope::new();
    let attributes = vec![
        attribute("xmlns:a", "urn:one"),
        attribute("plain", "v"),
        attribute("xmlns:a", "urn:two"),
        attribute("xmlns", "urn:d"),
    ];
    let scope = namespace_scope(&attributes, &inherited).unwrap();
    assert_eq!(scope.get(&Some("a".to_string())).map(|s| s.as_str()), Some("urn:two"));
    assert_eq!(scope.get(&None).map(|s| s.as_str()), Some("urn:d"));
    assert_eq!(scope.get(&Some("xml".to_string())).map(|s| s.as_str()), Some(XML_NAMESPACE));
}

#[test]
fn names_resolve_in_scope() {
    let mut scope = NamespaceScope::new();
    scope.insert(None, "urn:d".to_string());
    scope.insert(Some("p".to_string()), "urn:p".to_string());
    let element = expanded_name("local", &scope, false).unwrap();
    assert_eq!(element.namespace_uri.as_deref(), Some("urn:d"));
    let unqualified_attribute = expanded_name("local", &scope, true).unwrap();
    assert_eq!(unqualified_attribute.namespace_uri, None);
    let prefixed = expanded_name("p:local", &scope, false).unwrap();
    assert_eq!(prefixed.namespace_uri.as_deref(), Some("urn:p"));
    assert_eq!(prefixed.preferred_prefix.as_deref(), Some("p"));
    assert_eq!(prefixed.local_name, "local");
}

#[test]
fn malformed_names_are_errors() {
    let scope = NamespaceScope::new();
    assert_eq!(
        expanded_name(":local", &scope, false),
        Err(namespace_error(NamespaceError::MalformedName))
    );
    assert_eq!(
        expanded_name("a:b:c", &scope, false),
        Err(namespace_error(NamespaceError::MalformedName))
    );
    assert_eq!(
        expanded_name("p:", &scope, false),
        Err(namespace_error(NamespaceError::MalformedName))
    );
    assert_eq!(
        expanded_name("1bad", &scope, false),
        Err(namespace_error(NamespaceError::InvalidPrefixOrLocalName))
    );
    assert_eq!(
        expanded_name("xmlns:a", &scope, true),
        Err(namespace_error(NamespaceError::InvalidPrefixOrLocalName))
    );
    assert_eq!(
        expanded_name("q:a", &scope, false),
        Err(namespace_error(NamespaceError::UnboundPrefix("q".to_string())))
    );
}

#[test]
fn classification_of_children() {
    let mut scope = NamespaceScope::new();
    scope.insert(None, "http://www.w3.org/2005/Atom".to_string());
    assert_eq!(is_extension("title", &Vec::new(), &scope), Ok(false));
    let redeclared = vec![attribute("xmlns", "urn:other")];
    assert_eq!(is_extension("title", &redeclared, &scope), Ok(true));
    let prefixed_atom = vec![attribute("xmlns:a", "http://www.w3.org/2005/Atom")];
    assert_eq!(is_extension("a:title", &prefixed_atom, &scope), Ok(true));
}

#[test]
fn ncnames_and_prefixes() {
    assert!(valid_ncname("a"));
    assert!(valid_ncname("_a-b.c9"));
    assert!(valid_ncname("é"));
    assert!(!valid_ncname(""));
    assert!(!valid_ncname("9a"));
    assert!(!valid_ncname("a:b"));
    assert!(valid_prefix("ns0"));
    assert!(!valid_prefix("xmlfoo"));
    assert!(!valid_prefix("XMLfoo"));
    assert!(!valid_prefix("é"));
    assert!(!valid_prefix(""));
}

#[test]
fn text_is_coalesced() {
    let mut content = Vec::new();
    push_text(&mut content, "a".to_string());
    push_text(&mut content, "b".to_string());
    assert_eq!(content, vec![ExtensionContent::Text("ab".to_string())]);
}

#[test]
fn namespace_error_messages() {
    assert_eq!(NamespaceError::InvalidNcName.message(), "invalid XML NCName");
    assert_eq!(NamespaceError::DuplicateAttribute.message(), "duplicate expanded attribute name");
    assert_eq!(
        NamespaceError::UnboundPrefix("q".to_string()).message(),
        "unbound prefix 'q'"
    );
}

#[test]
fn prefix_whose_third_byte_splits_a_character() {
    let mut scope = NamespaceScope::new();
    assert_eq!(apply_namespace_declaration(&mut scope, Some("aaé"), "urn:a".to_string()), Ok(()));
    assert_eq!(scope.get(&Some("aaé".to_string())), Some(&"urn:a".to_string()));
    let xml = "<feed xmlns=\"http://www.w3.org/2005/Atom\" xmlns:a€=\"urn:x\"><a€:x>1</a€:x></feed>";
    let feed = xml.parse::<Feed>().unwrap();
    assert_eq!(feed.extensions().len(), 1);
    assert_eq!(Feed::read_from(xml.as_bytes()), Ok(feed));
}

#[test]
fn reading_a_document_stops_after_its_element() {
    let (events, stopped) = read_document(b"<?xml version=\"1.0\"?><a x=\"1&amp;2\"><b/>t&lt;</a><c/>");
    assert_eq!(stopped, None);
    assert_eq!(events.len(), 7);
    assert_eq!(events[0], XmlEvent::Other);
    assert_eq!(
        events[1],
        XmlEvent::Start { name: "a".to_string(), attributes: vec![attribute("x", "1&2")] }
    );
    assert_eq!(events[2], XmlEvent::Start { name: "b".to_string(), attributes: Vec::new() });
    assert_eq!(events[3], XmlEvent::End { name: "b".to_string() });
    assert_eq!(events[4], XmlEvent::Text("t".to_string()));
    assert_eq!(
        events[5],
        XmlEvent::Reference { name: "lt".to_string(), resolved: Some("<".to_string()) }
    );
    assert_eq!(events[6], XmlEvent::End { name: "a".to_string() });
}

#[test]
fn reading_a_document_reports_the_reader_failure() {
    let (events, stopped) = read_document(b"<a><b></a>");
    assert_eq!(events.len(), 2);
    assert!(matches!(stopped, Some(XmlError::Syntax(_))));
}

#[test]
fn writing_events() {
    let events = vec![
        XmlEvent::Start { name: "a".to_string(), attributes: vec![attribute("k", "x\"y")] },
        XmlEvent::Text("1 < 2".to_string()),
        XmlEvent::CData("raw <".to_string()),
        XmlEvent::Reference { name: "amp".to_string(), resolved: Some("&".to_string()) },
        XmlEvent::Other,
        XmlEvent::End { name: "a".to_string() },
    ];
    let config = WriteConfig { write_document_declaration: false, indent_size: None };
    let out = write_events(&events, Vec::new(), config).unwrap();
    assert_eq!(
        String::from_utf8(out).unwrap(),
        "<a k=\"x&quot;y\">1 &lt; 2<![CDATA[raw <]]>&amp;</a>"
    );
}

#[test]
fn entry_of_other_element_is_rejected() {
    assert_eq!(Entry::read_from(b"<feed/>"), Err(Error::InvalidStartTag));
}

#[test]
fn expanded_name_equality_ignores_the_prefix() {
    let a = ExpandedName {
        namespace_uri: Some("urn:x".to_string()),
        local_name: "n".to_string(),
        preferred_prefix: Some("p".to_string()),
    };
    let b = ExpandedName { preferred_prefix: None, ..a.clone() };
    assert_eq!(a, b);
}

#[test]
fn writing_events_with_indentation() {
    let events = vec![
        XmlEvent::Start { name: "a".to_string(), attributes: vec![attribute("k", "'<&>")] },
        XmlEvent::Start { name: "b".to_string(), attributes: vec![] },
        XmlEvent::Text("t>'".to_string()),
        XmlEvent::End { name: "b".to_string() },
        XmlEvent::Reference { name: "lt".to_string(), resolved: Some("<".to_string()) },
        XmlEvent::Start { name: "c".to_string(), attributes: vec![] },
        XmlEvent::End { name: "c".to_string() },
        XmlEvent::End { name: "a".to_string() },
    ];
    let config = WriteConfig { write_document_declaration: true, indent_size: Some(2) };
    let out = write_events(&events, b"#".to_vec(), config).unwrap();
    assert_eq!(
        String::from_utf8(out).unwrap(),
        "#<?xml version=\"1.0\"?>\n<a k=\"&apos;&lt;&amp;&gt;\">\n  <b>t&gt;&apos;</b>\n  &lt;\n  <c>\n  </c>\n</a>"
    );
}

#[test]
fn indentation_must_fit_in_a_buffer() {
    let events = vec![
        XmlEvent::Start { name: "a".to_string(), attributes: vec![] },
        XmlEvent::End { name: "a".to_string() },
        XmlEvent::Start { name: "b".to_string(), attributes: vec![] },
        XmlEvent::Start { name: "c".to_string(), attributes: vec![] },
    ];
    assert!(indentation_fits_events(&events, None));
    assert!(indentation_fits_events(&events, Some(4)));
    assert!(indentation_fits_events(&events, Some(isize::MAX as usize / 2)));
    assert!(!indentation_fits_events(&events, Some(isize::MAX as usize / 2 + 1)));
    assert!(!indentation_fits_events(&events, Some(usize::MAX)));
    assert!(indentation_fits_events(&events[..3].to_vec(), Some(isize::MAX as usize)));
}

#[test]
fn defaults_are_empty() {
    let name = ExpandedName::default();
    assert_eq!(name.namespace_uri, None);
    assert_eq!(name.local_name, "");
    assert_eq!(name.preferred_prefix, None);
    let attribute = ExtensionAttribute::default();
    assert_eq!(attribute.value, "");
    assert_eq!(attribute.name.local_name, "");
    let extension = Extension::default();
    assert!(extension.attributes.is_empty());
    assert!(extension.content.is_empty());
    let category = Category::default();
    assert_eq!(category.term, "");
    assert_eq!(category.scheme, None);
    assert_eq!(category.label, None);
}

#[test]
fn generated_prefix_is_the_least_free_one() {
    let mut scope = NamespaceScope::new();
    scope.insert(Some("ns0".to_string()), "urn:a".to_string());
    let mut declarations = NamespaceScope::new();
    let mut used = NamespaceScope::new();
    used.insert(Some("ns1".to_string()), "urn:b".to_string());
    let name = ExpandedName {
        namespace_uri: Some("urn:c".to_string()),
        local_name: "x".to_string(),
        preferred_prefix: None,
    };
    assert_eq!(serialized_name(&name, false, &mut scope, &mut declarations, &mut used), Ok("ns2:x".to_string()));
    assert_eq!(declarations.get(&Some("ns2".to_string())), Some(&"urn:c".to_string()));
}

#[test]
fn failed_declaration_leaves_the_scope() {
    let mut scope = NamespaceScope::new();
    scope.insert(None, "urn:a".to_string());
    scope.insert(Some("x".to_string()), "urn:b".to_string());
    assert_eq!(apply_namespace_declaration(&mut scope, None, String::new()), Ok(()));
    assert_eq!(scope.len(), 1);
    assert_eq!(
        apply_namespace_declaration(&mut scope, Some("y"), String::new()),
        Err(namespace_error(NamespaceError::EmptyPrefixedDeclaration))
    );
    assert_eq!(scope.len(), 1);
    assert_eq!(scope.get(&Some("x".to_string())), Some(&"urn:b".to_string()));
    let mut names = NamespaceScope::new();
    let mut declarations = NamespaceScope::new();
    let mut used = NamespaceScope::new();
    let bad = ExpandedName { namespace_uri: None, local_name: "1x".to_string(), preferred_prefix: None };
    assert!(serialized_name(&bad, false, &mut names, &mut declarations, &mut used).is_err());
    assert_eq!(names.len() + declarations.len() + used.len(), 0);
}

#[test]
fn prefixed_atom_child_is_an_extension_of_the_feed() {
    let xml = "<feed xmlns=\"http://www.w3.org/2005/Atom\"><a:title xmlns:a=\"http://www.w3.org/2005/Atom\">T</a:title></feed>";
    let feed = Feed::read_from(xml.as_bytes()).unwrap();
    assert_eq!(feed.title().value, "");
    assert_eq!(feed.extensions().len(), 1);
    assert_eq!(feed.extensions()[0].name.local_name, "title");
    assert_eq!(feed.extensions()[0].name.namespace_uri, Some("http://www.w3.org/2005/Atom".to_string()));
}

#[test]
fn malformed_attribute_value_stops_the_reader() {
    let (events, stopped) = read_document(b"<a x=\"&bad;\"/>");
    assert!(events.is_empty());
    assert!(matches!(stopped, Some(XmlError::Syntax(_))));
    let (events, stopped) = read_document(b"<a>&#x41;&bad;</a>");
    assert_eq!(stopped, None);
    assert_eq!(
        events[1],
        XmlEvent::Reference { name: "#x41".to_string(), resolved: Some("A".to_string()) }
    );
    assert_eq!(events[2], XmlEvent::Reference { name: "bad".to_string(), resolved: None });
}

#[test]
fn start_tag_name_ends_at_whitespace() {
    let (events, stopped) = read_document(b"<a\tb=\"1\"\nc='2'></a>");
    assert_eq!(stopped, None);
    assert_eq!(
        events[0],
        XmlEvent::Start { name: "a".to_string(), attributes: vec![attribute("b", "1"), attribute("c", "2")] }
    );
    assert_eq!(events[1], XmlEvent::End { name: "a".to_string() });
}
