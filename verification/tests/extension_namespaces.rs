use atom_syndication::extension::{
    ExpandedName, ExpandedNameBuilder, Extension, ExtensionAttribute, ExtensionAttributeBuilder,
    ExtensionBuilder, ExtensionContent,
};
use atom_syndication::{Entry, Error, NamespaceError, XmlError};

#[test]
fn standalone_entry_retains_scoped_extension_namespace_declarations() {
    let xml = r#"<entry xmlns="http://www.w3.org/2005/Atom"><title>Entry</title><x:item xmlns:x="urn:example:extension">content</x:item></entry>"#;
    let entry = Entry::read_from(xml.as_bytes()).unwrap();

    let serialized = entry.to_string();

    assert!(
        serialized.contains(r#"xmlns:x="urn:example:extension""#),
        "serialized entry loses the scoped extension namespace declaration: {serialized}"
    );
    assert!(
        serialized.contains("<x:item"),
        "serialized entry loses the extension prefix: {serialized}"
    );
    assert!(
        serialized.parse::<Entry>().is_ok(),
        "serialized entry is not reparsable: {serialized}"
    );
}

fn name(uri: Option<&str>, local: &str, prefix: Option<&str>) -> ExpandedName {
    ExpandedName {
        namespace_uri: uri.map(|u| u.to_string()),
        local_name: local.to_string(),
        preferred_prefix: prefix.map(|p| p.to_string()),
    }
}

fn entry_with(extensions: Vec<Extension>) -> Entry {
    let mut entry = Entry::default();
    entry.set_extensions(extensions);
    entry
}

#[test]
fn readme_rating_round_trips() {
    let xml = br#"<entry xmlns="http://www.w3.org/2005/Atom"><title>Example</title><x:rating xmlns:x="urn:example" x:stars="5"/></entry>"#;
    let entry = Entry::read_from(xml.as_slice()).unwrap();
    let rating = entry.extensions().iter().find(|extension| {
        extension.name.namespace_uri.as_deref() == Some("urn:example")
            && extension.name.local_name == "rating"
    });
    assert!(rating.is_some());
    let rating = rating.unwrap();
    assert_eq!(rating.attributes.len(), 1);
    assert_eq!(rating.attributes[0].name, name(Some("urn:example"), "stars", None));
    assert_eq!(rating.attributes[0].value, "5");
    let reparsed: Entry = entry.to_string().parse().unwrap();
    assert_eq!(
        reparsed.extensions()[0].name.namespace_uri.as_deref(),
        Some("urn:example")
    );
    assert_eq!(reparsed.extensions(), entry.extensions());
}

#[test]
fn documented_extension_example_round_trips() {
    let extension = Extension {
        name: name(Some("urn:example"), "rating", Some("x")),
        attributes: vec![ExtensionAttribute {
            name: name(Some("urn:example"), "stars", Some("x")),
            value: "5".into(),
        }],
        content: Vec::new(),
    };
    let entry = entry_with(vec![extension]);
    let reparsed: Entry = entry.to_string().parse().unwrap();
    assert_eq!(reparsed.extensions()[0].name.local_name, "rating");
    assert_eq!(reparsed.extensions(), entry.extensions());
}

#[test]
fn preferred_prefix_is_not_identity() {
    let a = name(Some("urn:a"), "x", Some("p"));
    let b = name(Some("urn:a"), "x", Some("q"));
    let c = name(Some("urn:b"), "x", Some("p"));
    assert_eq!(a, b);
    assert_ne!(a, c);
    assert_ne!(name(None, "x", None), name(Some("urn:a"), "x", None));
}

#[test]
fn attribute_order_is_not_identity() {
    let first = ExtensionAttribute { name: name(None, "a", None), value: "1".into() };
    let second = ExtensionAttribute { name: name(None, "b", None), value: "2".into() };
    let left = Extension {
        name: name(Some("urn:e"), "e", None),
        attributes: vec![first.clone(), second.clone()],
        content: Vec::new(),
    };
    let right = Extension {
        name: name(Some("urn:e"), "e", None),
        attributes: vec![second, first],
        content: Vec::new(),
    };
    assert_eq!(left, right);
}

#[test]
fn split_text_is_the_same_content() {
    let split = Extension {
        name: name(Some("urn:e"), "e", None),
        attributes: Vec::new(),
        content: vec![ExtensionContent::Text("ab".into()), ExtensionContent::Text("cd".into())],
    };
    let joined = Extension {
        name: name(Some("urn:e"), "e", None),
        attributes: Vec::new(),
        content: vec![ExtensionContent::Text("abcd".into())],
    };
    let other = Extension {
        name: name(Some("urn:e"), "e", None),
        attributes: Vec::new(),
        content: vec![ExtensionContent::Text("abce".into())],
    };
    assert_eq!(split, joined);
    assert_ne!(split, other);
}

#[test]
fn mixed_content_keeps_its_order() {
    let xml = r#"<entry xmlns="http://www.w3.org/2005/Atom"><e:root xmlns:e="urn:e">a&amp;b<e:child k="v">in</e:child>tail&#x41;</e:root></entry>"#;
    let entry: Entry = xml.parse().unwrap();
    let root = &entry.extensions()[0];
    assert_eq!(root.content.len(), 3);
    assert_eq!(root.content[0], ExtensionContent::Text("a&b".into()));
    match &root.content[1] {
        ExtensionContent::Element(child) => {
            assert_eq!(child.name, name(Some("urn:e"), "child", None));
            assert_eq!(child.attributes[0].name, name(None, "k", None));
            assert_eq!(child.content, vec![ExtensionContent::Text("in".into())]);
        }
        other => panic!("expected an element, got {:?}", other),
    }
    assert_eq!(root.content[2], ExtensionContent::Text("tailA".into()));
    let reparsed: Entry = entry.to_string().parse().unwrap();
    assert_eq!(reparsed.extensions(), entry.extensions());
}

#[test]
fn unknown_entity_is_kept_as_a_reference() {
    let xml = r#"<entry xmlns="http://www.w3.org/2005/Atom"><e:root xmlns:e="urn:e">x&custom;y</e:root></entry>"#;
    let entry: Entry = xml.parse().unwrap();
    assert_eq!(entry.extensions()[0].content, vec![ExtensionContent::Text("x&custom;y".into())]);
}

#[test]
fn prefixed_atom_name_is_an_extension() {
    let xml = r#"<entry xmlns="http://www.w3.org/2005/Atom" xmlns:a="http://www.w3.org/2005/Atom"><a:title>ext</a:title><title>core</title></entry>"#;
    let entry: Entry = xml.parse().unwrap();
    assert_eq!(entry.title().as_str(), "core");
    assert_eq!(entry.extensions().len(), 1);
    assert_eq!(entry.extensions()[0].name, name(Some("http://www.w3.org/2005/Atom"), "title", None));
    assert_eq!(entry.extensions()[0].name.preferred_prefix.as_deref(), Some("a"));
}

#[test]
fn unbound_prefix_is_an_error() {
    let xml = r#"<entry xmlns="http://www.w3.org/2005/Atom"><u:item/></entry>"#;
    let result = xml.parse::<Entry>();
    assert_eq!(
        result,
        Err(Error::Xml(XmlError::Namespace(NamespaceError::UnboundPrefix("u".into()))))
    );
}

#[test]
fn reserved_prefix_declaration_is_an_error() {
    let xml = r#"<entry xmlns="http://www.w3.org/2005/Atom"><x:item xmlns:xmlfoo="urn:a" xmlns:x="urn:x"/></entry>"#;
    assert_eq!(
        xml.parse::<Entry>(),
        Err(Error::Xml(XmlError::Namespace(NamespaceError::InvalidPrefix)))
    );
}

#[test]
fn xmlns_uri_binding_is_an_error() {
    let xml = r#"<entry xmlns="http://www.w3.org/2005/Atom"><x:item xmlns:x="http://www.w3.org/2000/xmlns/"/></entry>"#;
    assert_eq!(
        xml.parse::<Entry>(),
        Err(Error::Xml(XmlError::Namespace(NamespaceError::ReservedXmlnsBinding)))
    );
}

#[test]
fn duplicate_expanded_attribute_is_an_error_when_reading() {
    let xml = r#"<entry xmlns="http://www.w3.org/2005/Atom"><x:item xmlns:x="urn:x" xmlns:y="urn:x" x:a="1" y:a="2"/></entry>"#;
    assert_eq!(
        xml.parse::<Entry>(),
        Err(Error::Xml(XmlError::Namespace(NamespaceError::DuplicateAttribute)))
    );
}

#[test]
fn duplicate_expanded_attribute_is_an_error_when_writing() {
    let extension = Extension {
        name: name(Some("urn:e"), "e", None),
        attributes: vec![
            ExtensionAttribute { name: name(Some("urn:a"), "k", Some("p")), value: "1".into() },
            ExtensionAttribute { name: name(Some("urn:a"), "k", Some("q")), value: "2".into() },
        ],
        content: Vec::new(),
    };
    let entry = entry_with(vec![extension]);
    assert_eq!(
        entry.write_to(Vec::new()),
        Err(Error::Xml(XmlError::Namespace(NamespaceError::DuplicateAttribute)))
    );
    assert_eq!(entry.to_string(), "");
}

#[test]
fn invalid_local_name_is_an_error_when_writing() {
    let extension = Extension {
        name: name(Some("urn:e"), "not a name", None),
        attributes: Vec::new(),
        content: Vec::new(),
    };
    assert_eq!(
        entry_with(vec![extension]).write_to(Vec::new()),
        Err(Error::Xml(XmlError::Namespace(NamespaceError::InvalidNcName)))
    );
}

#[test]
fn empty_namespace_uri_is_an_error_when_writing() {
    let extension = Extension {
        name: name(Some(""), "e", None),
        attributes: Vec::new(),
        content: Vec::new(),
    };
    assert_eq!(
        entry_with(vec![extension]).write_to(Vec::new()),
        Err(Error::Xml(XmlError::Namespace(NamespaceError::EmptyNamespaceUri)))
    );
}

#[test]
fn xmlns_uri_is_an_error_when_writing() {
    let extension = Extension {
        name: name(Some("http://www.w3.org/2000/xmlns/"), "e", None),
        attributes: Vec::new(),
        content: Vec::new(),
    };
    assert_eq!(
        entry_with(vec![extension]).write_to(Vec::new()),
        Err(Error::Xml(XmlError::Namespace(NamespaceError::ReservedXmlnsUri)))
    );
}

#[test]
fn unqualified_xmlns_attribute_is_an_error_when_writing() {
    let extension = Extension {
        name: name(Some("urn:e"), "e", None),
        attributes: vec![ExtensionAttribute { name: name(None, "xmlns", None), value: "v".into() }],
        content: Vec::new(),
    };
    assert_eq!(
        entry_with(vec![extension]).write_to(Vec::new()),
        Err(Error::Xml(XmlError::Namespace(NamespaceError::DeclarationAttributeName)))
    );
}

#[test]
fn generated_prefix_when_none_is_preferred() {
    let extension = Extension {
        name: name(Some("urn:g"), "thing", None),
        attributes: Vec::new(),
        content: Vec::new(),
    };
    let entry = entry_with(vec![extension]);
    let text = entry.to_string();
    assert!(text.contains(r#"<ns0:thing xmlns:ns0="urn:g"></ns0:thing>"#), "{text}");
    let back: Entry = text.parse().unwrap();
    assert_eq!(back.extensions(), entry.extensions());
}

#[test]
fn reserved_preferred_prefix_is_replaced() {
    let extension = Extension {
        name: name(Some("urn:g"), "thing", Some("xmlthing")),
        attributes: Vec::new(),
        content: Vec::new(),
    };
    let text = entry_with(vec![extension]).to_string();
    assert!(text.contains("<ns0:thing"), "{text}");
}

#[test]
fn unqualified_element_clears_the_default_namespace() {
    let extension = Extension {
        name: name(None, "plain", None),
        attributes: Vec::new(),
        content: Vec::new(),
    };
    let entry = entry_with(vec![extension]);
    let text = entry.to_string();
    assert!(text.contains(r#"<plain xmlns=""></plain>"#), "{text}");
    let back: Entry = text.parse().unwrap();
    assert_eq!(back.extensions()[0].name, name(None, "plain", None));
}

#[test]
fn xml_namespace_names_use_the_xml_prefix() {
    let extension = Extension {
        name: name(Some("urn:e"), "e", Some("e")),
        attributes: vec![ExtensionAttribute {
            name: name(Some("http://www.w3.org/XML/1998/namespace"), "lang", None),
            value: "en".into(),
        }],
        content: Vec::new(),
    };
    let entry = entry_with(vec![extension]);
    let text = entry.to_string();
    assert!(text.contains(r#"xml:lang="en""#), "{text}");
    let back: Entry = text.parse().unwrap();
    assert_eq!(back.extensions(), entry.extensions());
}

#[test]
fn one_prefix_is_not_rebound_on_a_tag() {
    let extension = Extension {
        name: name(Some("urn:one"), "e", Some("p")),
        attributes: vec![ExtensionAttribute { name: name(Some("urn:two"), "a", Some("p")), value: "v".into() }],
        content: Vec::new(),
    };
    let entry = entry_with(vec![extension]);
    let text = entry.to_string();
    assert!(text.contains(r#"<p:e ns0:a="v" xmlns:ns0="urn:two" xmlns:p="urn:one">"#), "{text}");
    let back: Entry = text.parse().unwrap();
    assert_eq!(back.extensions(), entry.extensions());
}

#[test]
fn builders_build_what_was_set() {
    let mut name_builder = ExpandedNameBuilder::default();
    name_builder
        .namespace_uri(Some("urn:b".into()))
        .local_name("n".into())
        .preferred_prefix(Some("b".into()));
    let built = name_builder.build();
    assert_eq!(built.namespace_uri.as_deref(), Some("urn:b"));
    assert_eq!(built.local_name, "n");
    assert_eq!(built.preferred_prefix.as_deref(), Some("b"));

    let mut attribute_builder = ExtensionAttributeBuilder::default();
    attribute_builder.name(built.clone()).value("v".into());
    let attribute = attribute_builder.build();
    assert_eq!(attribute.value, "v");

    let mut extension_builder = ExtensionBuilder::default();
    extension_builder
        .name(built.clone())
        .attribute(attribute)
        .content_item(ExtensionContent::Text("t".into()));
    let extension = extension_builder.build();
    assert_eq!(extension.name, built);
    assert_eq!(extension.attributes.len(), 1);
    assert_eq!(extension.content, vec![ExtensionContent::Text("t".into())]);

    let default = ExtensionBuilder::default().build();
    assert_eq!(default.name.local_name, "");
    assert!(default.attributes.is_empty() && default.content.is_empty());
}
