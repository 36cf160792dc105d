use atom_syndication::{Category, Error, Feed, FeedBuilder, Link, Person, Text, WriteConfig, XmlError};

#[test]
fn test_default() {
    let feed = Feed::default();
    let xml_fragment = r#"<?xml version="1.0"?>
<feed xmlns="http://www.w3.org/2005/Atom"><title></title><id></id><updated>1970-01-01T00:00:00+00:00</updated></feed>"#;
    assert_eq!(feed.to_string(), xml_fragment);
    let loaded_feed = Feed::read_from(xml_fragment.as_bytes()).unwrap();
    assert_eq!(loaded_feed, feed);
    assert_eq!(loaded_feed.base(), None);
    assert_eq!(loaded_feed.lang(), None);
}

#[test]
fn test_base_and_lang() {
    let mut feed = Feed::default();
    feed.set_base(Some("http://example.com/blog/".into()));
    feed.set_lang(Some("fr_FR".into()));
    let xml_fragment = r#"<?xml version="1.0"?>
<feed xmlns="http://www.w3.org/2005/Atom" xml:base="http://example.com/blog/" xml:lang="fr_FR"><title></title><id></id><updated>1970-01-01T00:00:00+00:00</updated></feed>"#;
    assert_eq!(feed.to_string(), xml_fragment);
    let loaded_feed = Feed::read_from(xml_fragment.as_bytes()).unwrap();
    assert_eq!(loaded_feed, feed);
    assert_eq!(loaded_feed.base(), Some("http://example.com/blog/"));
    assert_eq!(loaded_feed.lang(), Some("fr_FR"));
}

#[test]
fn test_write_no_decl() {
    let feed = Feed::default();
    let xml = feed
        .write_with_config(
            Vec::new(),
            WriteConfig {
                write_document_declaration: false,
                indent_size: None,
            },
        )
        .unwrap();
    assert_eq!(
        String::from_utf8_lossy(&xml),
        r#"<feed xmlns="http://www.w3.org/2005/Atom"><title></title><id></id><updated>1970-01-01T00:00:00+00:00</updated></feed>"#
    );
}

#[test]
fn test_write_indented() {
    let feed = Feed::default();
    let xml = feed
        .write_with_config(
            Vec::new(),
            WriteConfig {
                write_document_declaration: true,
                indent_size: Some(4),
            },
        )
        .unwrap();
    assert_eq!(
        String::from_utf8_lossy(&xml),
        r#"<?xml version="1.0"?>
<feed xmlns="http://www.w3.org/2005/Atom">
    <title></title>
    <id></id>
    <updated>1970-01-01T00:00:00+00:00</updated>
</feed>"#
    );
}

#[test]
fn test_write_no_decl_indented() {
    let feed = Feed::default();
    let xml = feed
        .write_with_config(
            Vec::new(),
            WriteConfig {
                write_document_declaration: false,
                indent_size: Some(4),
            },
        )
        .unwrap();
    assert_eq!(
        String::from_utf8_lossy(&xml),
        r#"<feed xmlns="http://www.w3.org/2005/Atom">
    <title></title>
    <id></id>
    <updated>1970-01-01T00:00:00+00:00</updated>
</feed>"#
    );
}

#[test]
fn write_to_appends_to_the_given_buffer() {
    let feed = Feed::default();
    let out = feed.write_to(b"prefix:".to_vec()).unwrap();
    let text = String::from_utf8(out).unwrap();
    assert!(text.starts_with("prefix:<?xml version=\"1.0\"?>\n<feed "));
}

#[test]
fn read_rejects_another_start_tag() {
    let result = Feed::read_from(b"<entry></entry>");
    assert_eq!(result, Err(Error::InvalidStartTag));
}

#[test]
fn read_of_empty_input_is_eof() {
    assert_eq!(Feed::read_from(b""), Err(Error::Eof));
    assert_eq!(Feed::read_from(b"<!-- only a comment -->"), Err(Error::Eof));
}

#[test]
fn read_of_unclosed_feed_is_eof() {
    let result = Feed::read_from(b"<feed xmlns=\"http://www.w3.org/2005/Atom\"><title>x</title>");
    assert_eq!(result, Err(Error::Eof));
}

#[test]
fn read_reports_a_syntax_error_met_inside_the_feed() {
    let result = Feed::read_from(b"<feed><title>x</wrong></feed>");
    match result {
        Err(Error::Xml(XmlError::Syntax(_))) => {}
        other => panic!("unexpected result {:?}", other),
    }
}

#[test]
fn read_ignores_what_follows_the_feed() {
    let feed = Feed::read_from(b"<feed xmlns=\"http://www.w3.org/2005/Atom\"><id>abc</id></feed><broken")
        .unwrap();
    assert_eq!(feed.id(), "abc");
}

#[test]
fn children_outside_the_atom_namespace_are_extensions() {
    let feed = Feed::read_from(b"<feed><id>abc</id></feed>").unwrap();
    assert_eq!(feed.id(), "");
    assert_eq!(feed.extensions().len(), 1);
    assert_eq!(feed.extensions()[0].name.local_name, "id");
    assert_eq!(feed.extensions()[0].name.namespace_uri, None);
}

#[test]
fn read_of_all_fields() {
    let xml = r#"<feed xmlns="http://www.w3.org/2005/Atom">
  <title>Feed &amp; Title</title>
  <id>urn:feed</id>
  <updated>2024-05-06T07:08:09+00:00</updated>
  <author><name>Ann</name><email>ann@example.com</email><uri>http://ann.example.com</uri></author>
  <category term="tech" scheme="http://scheme" label="Technology"/>
  <contributor><name>Bob</name></contributor>
  <generator uri="http://gen" version="1.0">Gen</generator>
  <icon>http://icon</icon>
  <link href="http://example.com/"/>
  <link href="http://example.com/self" rel="self"/>
  <logo>http://logo</logo>
  <rights>All rights</rights>
  <subtitle>Sub</subtitle>
  <entry><title>E1</title><id>urn:e1</id></entry>
  <unknown>skipped</unknown>
</feed>"#;
    let feed: Feed = xml.parse().unwrap();
    assert_eq!(feed.title().as_str(), "Feed & Title");
    assert_eq!(feed.id(), "urn:feed");
    assert_eq!(feed.updated().to_rfc3339(), "2024-05-06T07:08:09+00:00");
    assert_eq!(feed.authors().len(), 1);
    assert_eq!(feed.authors()[0].name(), "Ann");
    assert_eq!(feed.authors()[0].email(), Some("ann@example.com"));
    assert_eq!(feed.authors()[0].uri(), Some("http://ann.example.com"));
    assert_eq!(feed.categories().len(), 1);
    assert_eq!(feed.categories()[0].term, "tech");
    assert_eq!(feed.categories()[0].scheme.as_deref(), Some("http://scheme"));
    assert_eq!(feed.categories()[0].label.as_deref(), Some("Technology"));
    assert_eq!(feed.contributors()[0].name(), "Bob");
    let generator = feed.generator().unwrap();
    assert_eq!(generator.value, "Gen");
    assert_eq!(generator.uri.as_deref(), Some("http://gen"));
    assert_eq!(generator.version.as_deref(), Some("1.0"));
    assert_eq!(feed.icon(), Some("http://icon"));
    assert_eq!(feed.links().len(), 2);
    assert_eq!(feed.links()[0].href, "http://example.com/");
    assert_eq!(feed.links()[0].rel, "alternate");
    assert_eq!(feed.links()[1].rel, "self");
    assert_eq!(feed.logo(), Some("http://logo"));
    assert_eq!(feed.rights().unwrap().as_str(), "All rights");
    assert_eq!(feed.subtitle().unwrap().as_str(), "Sub");
    assert_eq!(feed.entries().len(), 1);
    assert_eq!(feed.entries()[0].id(), "urn:e1");
    assert!(feed.extensions().is_empty());
}

#[test]
fn written_feed_reads_back_equal() {
    let mut author = Person::default();
    author.set_name("Ann".to_string());
    author.set_email(Some("ann@example.com".to_string()));
    let category = Category { term: "tech".to_string(), scheme: None, label: None };
    let mut link = Link::default();
    link.href = "http://example.com/".to_string();
    let mut builder = FeedBuilder::default();
    builder
        .title(Text::plain("A <title> & more".to_string()))
        .id("urn:x".to_string())
        .author(author)
        .category(category)
        .link(link)
        .icon(Some("http://icon".to_string()))
        .lang(Some("en".to_string()));
    let feed = builder.build();
    let text = feed.to_string();
    assert!(text.contains("<title>A &lt;title&gt; &amp; more</title>"));
    let back = Feed::read_from(text.as_bytes()).unwrap();
    assert_eq!(back, feed);
}

#[test]
fn feed_getters_and_setters() {
    let mut feed = Feed::default();
    feed.set_title(Text::plain("T".to_string()));
    feed.set_id("I".to_string());
    feed.set_icon(Some("icon".to_string()));
    feed.set_logo(Some("logo".to_string()));
    feed.set_rights(Some(Text::plain("r".to_string())));
    feed.set_subtitle(Some(Text::plain("s".to_string())));
    assert_eq!(feed.title().as_str(), "T");
    assert_eq!(feed.id(), "I");
    assert_eq!(feed.icon(), Some("icon"));
    assert_eq!(feed.logo(), Some("logo"));
    assert_eq!(feed.rights().unwrap().as_str(), "r");
    assert_eq!(feed.subtitle().unwrap().as_str(), "s");
    assert_eq!(feed.updated().to_rfc3339(), "1970-01-01T00:00:00+00:00");
}

#[test]
fn default_write_config() {
    let config = WriteConfig::default();
    assert!(config.write_document_declaration);
    assert_eq!(config.indent_size, None);
}

#[test]
fn feed_builder_defaults_to_the_default_feed() {
    let feed = FeedBuilder::default().build();
    assert_eq!(feed, Feed::default());
}

#[test]
fn builder_keeps_the_last_value_of_each_field() {
    let mut builder = FeedBuilder::default();
    builder.title(Text::plain("first".to_string()));
    builder.id("urn:x".to_string());
    builder.category(Category::default());
    builder.title(Text::plain("second".to_string()));
    let feed = builder.build();
    assert_eq!(feed.title().value, "second");
    assert_eq!(feed.id(), "urn:x");
    assert_eq!(feed.categories().len(), 1);
    assert_eq!(feed.entries().len(), 0);
    assert_eq!(feed.icon(), None);
}
