//! An Atom feed.

use vstd::prelude::*;
use vstd::utf8::encode_utf8;
use vstd::string::StringSliceAdditionalSpecFns;

use crate::chars::{copy_opt_string, copy_string, str_eq};
use crate::codec::{
    document_outcome, document_text, finish_document, indentation_fits, lemma_document_bytes, document_events, failure_view, read_document, stopped_view, utf8_string, write_events,
};
use crate::elements::{
    attribute_value, category_attributes, default_fixed_datetime, epoch_rfc3339, find_attribute,
    generator_attributes, optional_attributes, parse_category, parse_generator, parse_link,
    parse_text, Category, CategoryView, FixedDateTime, Generator, GeneratorView, Link, LinkView,
    Text,
};
use crate::entry::{
    copy_persons, entry_events, parse_entry, person_views, persons_events, write_persons, Entry,
    EntryView,
};
use crate::error::{Error, ErrorView, NamespaceErrorView, XmlError};
use crate::extension::{copy_extensions, Extension, ExtensionView};
use crate::namespace::{
    classify_extension, element_scope, is_extension,
    namespace_scope, opt_str_view, parse_element, parse_extension, ATOM_NAMESPACE,
};
use crate::person::{parse_person, Person, PersonView};
use crate::scope::{KeyView, NamespaceScope};
use crate::toxml::{
    atom_scope, extension_views, extensions_events, new_atom_scope,
    optional_text_element_events, text_element_events, write_extensions, write_text_element,
};
use crate::util::{atom_text, element_text, skip, skip_to_end};
use crate::xml::{
    attributes_view, events_view, AttributeEventView, EventView, XmlAttribute, XmlEvent,
};

verus! {

/// Various options which control the XML writer.
#[derive(Clone, Copy, Debug)]
pub struct WriteConfig {
    /// Write the XML document declaration at the beginning of a document. Default is `true`.
    pub write_document_declaration: bool,
    /// Indent XML tags. Default is `None`.
    pub indent_size: Option<usize>,
}

impl Default for WriteConfig {
    fn default() -> (r: WriteConfig)
        ensures
            r.write_document_declaration,
            r.indent_size is None,
    {
        WriteConfig { write_document_declaration: true, indent_size: None }
    }
}

/// Represents an Atom feed.
#[derive(Debug, PartialEq)]
pub struct Feed {
    /// A human-readable title for the feed.
    pub title: Text,
    /// A universally unique and permanent URI.
    pub id: String,
    /// The last time the feed was modified in a significant way.
    pub updated: FixedDateTime,
    /// The authors of the feed.
    pub authors: Vec<Person>,
    /// The categories that the feed belongs to.
    pub categories: Vec<Category>,
    /// The contributors to the feed.
    pub contributors: Vec<Person>,
    /// The software used to generate the feed.
    pub generator: Option<Generator>,
    /// A small image which provides visual identification for the feed.
    pub icon: Option<String>,
    /// The Web pages related to the feed.
    pub links: Vec<Link>,
    /// A larger image which provides visual identification for the feed.
    pub logo: Option<String>,
    /// Information about rights held in and over the feed.
    pub rights: Option<Text>,
    /// A human-readable description or subtitle for the feed.
    pub subtitle: Option<Text>,
    /// The entries contained in the feed.
    pub entries: Vec<Entry>,
    /// The extensions for the feed.
    pub extensions: Vec<Extension>,
    /// Base URL for resolving any relative references found in the element.
    pub base: Option<String>,
    /// Indicates the natural language for the element.
    pub lang: Option<String>,
}

/// The view of a [`Feed`].
pub struct FeedView {
    pub title: Seq<char>,
    pub id: Seq<char>,
    pub updated: Seq<char>,
    pub authors: Seq<PersonView>,
    pub categories: Seq<CategoryView>,
    pub contributors: Seq<PersonView>,
    pub generator: Option<GeneratorView>,
    pub icon: Option<Seq<char>>,
    pub links: Seq<LinkView>,
    pub logo: Option<Seq<char>>,
    pub rights: Option<Seq<char>>,
    pub subtitle: Option<Seq<char>>,
    pub entries: Seq<EntryView>,
    pub extensions: Seq<ExtensionView>,
    pub base: Option<Seq<char>>,
    pub lang: Option<Seq<char>>,
}

pub open spec fn category_views(c: Seq<Category>) -> Seq<CategoryView> {
    c.map_values(|x: Category| x@)
}

pub open spec fn link_views(c: Seq<Link>) -> Seq<LinkView> {
    c.map_values(|x: Link| x@)
}

pub open spec fn entry_views(c: Seq<Entry>) -> Seq<EntryView> {
    c.map_values(|x: Entry| x@)
}

pub open spec fn opt_generator_view(g: Option<Generator>) -> Option<GeneratorView> {
    match g {
        Some(x) => Some(x@),
        None => None,
    }
}

pub open spec fn opt_text_view(t: Option<Text>) -> Option<Seq<char>> {
    match t {
        Some(x) => Some(x@),
        None => None,
    }
}

impl View for Feed {
    type V = FeedView;

    open spec fn view(&self) -> FeedView {
        FeedView {
            title: self.title@,
            id: self.id@,
            updated: self.updated@,
            authors: person_views(self.authors@),
            categories: category_views(self.categories@),
            contributors: person_views(self.contributors@),
            generator: opt_generator_view(self.generator),
            icon: self.icon.deep_view(),
            links: link_views(self.links@),
            logo: self.logo.deep_view(),
            rights: opt_text_view(self.rights),
            subtitle: opt_text_view(self.subtitle),
            entries: entry_views(self.entries@),
            extensions: extension_views(self.extensions@),
            base: self.base.deep_view(),
            lang: self.lang.deep_view(),
        }
    }
}

/// The feed with empty title and id, the epoch as its timestamp, and nothing else.
pub open spec fn empty_feed() -> FeedView {
    FeedView {
        title: Seq::empty(),
        id: Seq::empty(),
        updated: epoch_rfc3339(),
        authors: Seq::empty(),
        categories: Seq::empty(),
        contributors: Seq::empty(),
        generator: None,
        icon: None,
        links: Seq::empty(),
        logo: None,
        rights: None,
        subtitle: None,
        entries: Seq::empty(),
        extensions: Seq::empty(),
        base: None,
        lang: None,
    }
}

impl Default for Feed {
    fn default() -> (r: Feed)
        ensures
            r@ == empty_feed(),
    {
        let r = Feed {
            title: Text::default(),
            id: String::new(),
            updated: default_fixed_datetime(),
            authors: Vec::new(),
            categories: Vec::new(),
            contributors: Vec::new(),
            generator: None,
            icon: None,
            links: Vec::new(),
            logo: None,
            rights: None,
            subtitle: None,
            entries: Vec::new(),
            extensions: Vec::new(),
            base: None,
            lang: None,
        };
        assert(person_views(r.authors@) =~= Seq::<PersonView>::empty());
        assert(person_views(r.contributors@) =~= Seq::<PersonView>::empty());
        assert(category_views(r.categories@) =~= Seq::<CategoryView>::empty());
        assert(link_views(r.links@) =~= Seq::<LinkView>::empty());
        assert(entry_views(r.entries@) =~= Seq::<EntryView>::empty());
        assert(extension_views(r.extensions@) =~= Seq::<ExtensionView>::empty());
        r
    }
}

impl Feed {
    /// Return the title of this feed.
    pub fn title(&self) -> (r: &Text)
        ensures
            r@ == self@.title,
    {
        &self.title
    }

    /// Set the title of this feed.
    pub fn set_title(&mut self, title: Text)
        ensures
            final(self)@ == (FeedView { title: title@, ..old(self)@ }),
    {
        self.title = title;
    }

    /// Return the unique URI of this feed.
    pub fn id(&self) -> (r: &str)
        ensures
            r@ == self@.id,
    {
        self.id.as_str()
    }

    /// Set the unique URI of this feed.
    pub fn set_id(&mut self, id: String)
        ensures
            final(self)@ == (FeedView { id: id@, ..old(self)@ }),
    {
        self.id = id;
    }

    /// Return the last time that this feed was modified.
    pub fn updated(&self) -> (r: &FixedDateTime)
        ensures
            r@ == self@.updated,
    {
        &self.updated
    }

    /// Set the last time that this feed was modified.
    pub fn set_updated(&mut self, updated: FixedDateTime)
        ensures
            final(self)@ == (FeedView { updated: updated@, ..old(self)@ }),
    {
        self.updated = updated;
    }

    /// Return the authors of this feed.
    pub fn authors(&self) -> (r: &[Person])
        ensures
            r@ == self.authors@,
    {
        self.authors.as_slice()
    }

    /// Set the authors of this feed.
    pub fn set_authors(&mut self, authors: Vec<Person>)
        ensures
            final(self)@ == (FeedView { authors: person_views(authors@), ..old(self)@ }),
    {
        self.authors = authors;
    }

    /// Return the categories this feed belongs to.
    pub fn categories(&self) -> (r: &[Category])
        ensures
            r@ == self.categories@,
    {
        self.categories.as_slice()
    }

    /// Set the categories this feed belongs to.
    pub fn set_categories(&mut self, categories: Vec<Category>)
        ensures
            final(self)@ == (FeedView { categories: category_views(categories@), ..old(self)@ }),
    {
        self.categories = categories;
    }

    /// Return the contributors to this feed.
    pub fn contributors(&self) -> (r: &[Person])
        ensures
            r@ == self.contributors@,
    {
        self.contributors.as_slice()
    }

    /// Set the contributors to this feed.
    pub fn set_contributors(&mut self, contributors: Vec<Person>)
        ensures
            final(self)@ == (FeedView { contributors: person_views(contributors@), ..old(self)@ }),
    {
        self.contributors = contributors;
    }

    /// Return the software used to generate this feed.
    pub fn generator(&self) -> (r: Option<&Generator>)
        ensures
            match r {
                Some(g) => self.generator matches Some(h) && g@ == h@,
                None => self.generator is None,
            },
    {
        self.generator.as_ref()
    }

    /// Set the software used to generate this feed.
    pub fn set_generator(&mut self, generator: Option<Generator>)
        ensures
            final(self)@ == (FeedView { generator: opt_generator_view(generator), ..old(self)@ }),
    {
        self.generator = generator;
    }

    /// Return the icon for this feed.
    pub fn icon(&self) -> (r: Option<&str>)
        ensures
            opt_str_view(r) == self@.icon,
    {
        match &self.icon {
            Some(x) => Some(x.as_str()),
            None => None,
        }
    }

    /// Set the icon for this feed.
    pub fn set_icon(&mut self, icon: Option<String>)
        ensures
            final(self)@ == (FeedView { icon: icon.deep_view(), ..old(self)@ }),
    {
        self.icon = icon;
    }

    /// Return the Web pages related to this feed.
    pub fn links(&self) -> (r: &[Link])
        ensures
            r@ == self.links@,
    {
        self.links.as_slice()
    }

    /// Set the Web pages related to this feed.
    pub fn set_links(&mut self, links: Vec<Link>)
        ensures
            final(self)@ == (FeedView { links: link_views(links@), ..old(self)@ }),
    {
        self.links = links;
    }

    /// Return the logo for this feed.
    pub fn logo(&self) -> (r: Option<&str>)
        ensures
            opt_str_view(r) == self@.logo,
    {
        match &self.logo {
            Some(x) => Some(x.as_str()),
            None => None,
        }
    }

    /// Set the logo for this feed.
    pub fn set_logo(&mut self, logo: Option<String>)
        ensures
            final(self)@ == (FeedView { logo: logo.deep_view(), ..old(self)@ }),
    {
        self.logo = logo;
    }

    /// Return the information about the rights held in and over this feed.
    pub fn rights(&self) -> (r: Option<&Text>)
        ensures
            match r {
                Some(t) => self@.rights == Some(t@),
                None => self@.rights is None,
            },
    {
        self.rights.as_ref()
    }

    /// Set the information about the rights held in and over this feed.
    pub fn set_rights(&mut self, rights: Option<Text>)
        ensures
            final(self)@ == (FeedView { rights: opt_text_view(rights), ..old(self)@ }),
    {
        self.rights = rights;
    }

    /// Return the description or subtitle of this feed.
    pub fn subtitle(&self) -> (r: Option<&Text>)
        ensures
            match r {
                Some(t) => self@.subtitle == Some(t@),
                None => self@.subtitle is None,
            },
    {
        self.subtitle.as_ref()
    }

    /// Set the description or subtitle of this feed.
    pub fn set_subtitle(&mut self, subtitle: Option<Text>)
        ensures
            final(self)@ == (FeedView { subtitle: opt_text_view(subtitle), ..old(self)@ }),
    {
        self.subtitle = subtitle;
    }

    /// Return the entries in this feed.
    pub fn entries(&self) -> (r: &[Entry])
        ensures
            r@ == self.entries@,
    {
        self.entries.as_slice()
    }

    /// Set the entries in this feed.
    pub fn set_entries(&mut self, entries: Vec<Entry>)
        ensures
            final(self)@ == (FeedView { entries: entry_views(entries@), ..old(self)@ }),
    {
        self.entries = entries;
    }

    /// Return extensions directly attached to this feed.
    pub fn extensions(&self) -> (r: &[Extension])
        ensures
            r@ == self.extensions@,
    {
        self.extensions.as_slice()
    }

    /// Replace extensions directly attached to this feed.
    pub fn set_extensions(&mut self, extensions: Vec<Extension>)
        ensures
            final(self)@ == (FeedView { extensions: extension_views(extensions@), ..old(self)@ }),
    {
        self.extensions = extensions;
    }

    /// Return base URL of the feed.
    pub fn base(&self) -> (r: Option<&str>)
        ensures
            opt_str_view(r) == self@.base,
    {
        match &self.base {
            Some(x) => Some(x.as_str()),
            None => None,
        }
    }

    /// Set base URL of the feed.
    pub fn set_base(&mut self, base: Option<String>)
        ensures
            final(self)@ == (FeedView { base: base.deep_view(), ..old(self)@ }),
    {
        self.base = base;
    }

    /// Return natural language of the feed.
    pub fn lang(&self) -> (r: Option<&str>)
        ensures
            opt_str_view(r) == self@.lang,
    {
        match &self.lang {
            Some(x) => Some(x.as_str()),
            None => None,
        }
    }

    /// Set the natural language of the feed.
    pub fn set_lang(&mut self, lang: Option<String>)
        ensures
            final(self)@ == (FeedView { lang: lang.deep_view(), ..old(self)@ }),
    {
        self.lang = lang;
    }
}

// ---------------------------------------------------------------------------
// Reading
// ---------------------------------------------------------------------------

/// The text of an optional element content, or empty.
pub open spec fn text_or_empty(t: Option<Seq<char>>) -> Seq<char> {
    match t {
        Some(x) => x,
        None => Seq::empty(),
    }
}

/// Reads one non-extension child of a feed whose start tag `ev[j]` is named
/// `name` with attributes `attrs`, into `acc`; returns the feed and the index
/// past the child. Unknown children are skipped.
pub open spec fn feed_child(
    ev: Seq<EventView>,
    j: int,
    name: Seq<char>,
    attrs: Seq<AttributeEventView>,
    scope: Map<KeyView, Seq<char>>,
    acc: FeedView,
) -> Result<(FeedView, int), ErrorView> {
    if name == "title"@ || name == "rights"@ || name == "subtitle"@ {
        match parse_text(ev, j + 1) {
            Err(e) => Err(e),
            Ok((t, k)) => Ok(
                (
                    if name == "title"@ {
                        FeedView { title: t, ..acc }
                    } else if name == "rights"@ {
                        FeedView { rights: Some(t), ..acc }
                    } else {
                        FeedView { subtitle: Some(t), ..acc }
                    },
                    k,
                ),
            ),
        }
    } else if name == "id"@ || name == "updated"@ || name == "icon"@ || name == "logo"@ {
        match element_text(ev, j + 1, 0, None) {
            Err(e) => Err(e),
            Ok((t, k)) => Ok(
                (
                    if name == "id"@ {
                        FeedView { id: text_or_empty(t), ..acc }
                    } else if name == "updated"@ {
                        FeedView {
                            updated: match t {
                                Some(x) => x,
                                None => epoch_rfc3339(),
                            },
                            ..acc
                        }
                    } else if name == "icon"@ {
                        FeedView { icon: t, ..acc }
                    } else {
                        FeedView { logo: t, ..acc }
                    },
                    k,
                ),
            ),
        }
    } else if name == "author"@ || name == "contributor"@ {
        match parse_person(ev, j + 1, attrs, scope) {
            Err(e) => Err(e),
            Ok((p, k)) => Ok(
                (
                    if name == "author"@ {
                        FeedView { authors: acc.authors.push(p), ..acc }
                    } else {
                        FeedView { contributors: acc.contributors.push(p), ..acc }
                    },
                    k,
                ),
            ),
        }
    } else if name == "generator"@ {
        match parse_generator(ev, j + 1, attrs) {
            Err(e) => Err(e),
            Ok((g, k)) => Ok((FeedView { generator: Some(g), ..acc }, k)),
        }
    } else if name == "entry"@ {
        match parse_entry(ev, j + 1, attrs, scope) {
            Err(e) => Err(e),
            Ok((x, k)) => Ok((FeedView { entries: acc.entries.push(x), ..acc }, k)),
        }
    } else {
        match skip_to_end(ev, j + 1, 0) {
            Err(e) => Err(e),
            Ok(k) => Ok(
                (
                    if name == "category"@ {
                        FeedView { categories: acc.categories.push(parse_category(attrs)), ..acc }
                    } else if name == "link"@ {
                        FeedView { links: acc.links.push(parse_link(attrs)), ..acc }
                    } else {
                        acc
                    },
                    k,
                ),
            ),
        }
    }
}

/// Reads the content of a feed from `ev[j]` up to its end tag, in `scope`,
/// after the fields `acc` already read.
pub open spec fn parse_feed_body(
    ev: Seq<EventView>,
    j: int,
    scope: Map<KeyView, Seq<char>>,
    acc: FeedView,
) -> Result<(FeedView, int), ErrorView>
    decreases ev.len() - j,
{
    if j < 0 || j >= ev.len() {
        Err(ErrorView::Eof)
    } else {
        match ev[j] {
            EventView::Start { name, attributes } => {
                let step = match classify_extension(name, attributes, scope) {
                    Err(e) => Err(e),
                    Ok(true) => match parse_element(ev, j, scope) {
                        Err(e) => Err(e),
                        Ok((x, k)) => Ok((FeedView { extensions: acc.extensions.push(x), ..acc }, k)),
                    },
                    Ok(false) => feed_child(ev, j, name, attributes, scope, acc),
                };
                match step {
                    Err(e) => Err(e),
                    Ok((acc2, k)) => if j < k <= ev.len() {
                        parse_feed_body(ev, k, scope, acc2)
                    } else {
                        Err(ErrorView::Eof)
                    },
                }
            },
            EventView::End { .. } => Ok((acc, j + 1)),
            _ => parse_feed_body(ev, j + 1, scope, acc),
        }
    }
}

/// A child of a feed that is an extension (explicitly prefixed, or outside
/// the Atom namespace) is appended to the feed's extensions, after those read
/// before it, and sets no other field of the feed; reading goes on after it.
pub proof fn law_feed_extension_child(ev: Seq<EventView>, j: int, scope: Map<KeyView, Seq<char>>, acc: FeedView)
    requires
        0 <= j < ev.len(),
        ev[j] matches EventView::Start { name, attributes } && classify_extension(name, attributes, scope)
            == Ok::<bool, ErrorView>(true),
        parse_element(ev, j, scope) matches Ok((x, k)) && j < k <= ev.len(),
    ensures
        parse_feed_body(ev, j, scope, acc) == parse_feed_body(
            ev,
            parse_element(ev, j, scope)->Ok_0.1,
            scope,
            FeedView { extensions: acc.extensions.push(parse_element(ev, j, scope)->Ok_0.0), ..acc },
        ),
{
}

/// The extension children of a feed's content from `ev[j]` on, in document
/// order: the children that [`parse_feed_body`] reads as extensions, up to
/// the end tag or the first error.
pub open spec fn feed_extension_children(
    ev: Seq<EventView>,
    j: int,
    scope: Map<KeyView, Seq<char>>,
    acc: FeedView,
) -> Seq<ExtensionView>
    decreases ev.len() - j,
{
    if j < 0 || j >= ev.len() {
        seq![]
    } else {
        match ev[j] {
            EventView::Start { name, attributes } => match classify_extension(name, attributes, scope) {
                Err(_) => seq![],
                Ok(true) => match parse_element(ev, j, scope) {
                    Err(_) => seq![],
                    Ok((x, k)) => if j < k <= ev.len() {
                        seq![x] + feed_extension_children(
                            ev,
                            k,
                            scope,
                            FeedView { extensions: acc.extensions.push(x), ..acc },
                        )
                    } else {
                        seq![]
                    },
                },
                Ok(false) => match feed_child(ev, j, name, attributes, scope, acc) {
                    Err(_) => seq![],
                    Ok((acc2, k)) => if j < k <= ev.len() {
                        feed_extension_children(ev, k, scope, acc2)
                    } else {
                        seq![]
                    },
                },
            },
            EventView::End { .. } => seq![],
            _ => feed_extension_children(ev, j + 1, scope, acc),
        }
    }
}

/// The extensions of a feed read from its content are those read before,
/// followed by its extension children in document order: a child that is not
/// an extension adds none.
pub proof fn law_feed_extensions_in_order(
    ev: Seq<EventView>,
    j: int,
    scope: Map<KeyView, Seq<char>>,
    acc: FeedView,
)
    requires
        parse_feed_body(ev, j, scope, acc) is Ok,
    ensures
        parse_feed_body(ev, j, scope, acc)->Ok_0.0.extensions == acc.extensions + feed_extension_children(
            ev,
            j,
            scope,
            acc,
        ),
    decreases ev.len() - j,
{
    if 0 <= j < ev.len() {
        match ev[j] {
            EventView::Start { name, attributes } => {
                match classify_extension(name, attributes, scope) {
                    Ok(true) => {
                        let (x, k) = parse_element(ev, j, scope)->Ok_0;
                        let acc2 = FeedView { extensions: acc.extensions.push(x), ..acc };
                        law_feed_extensions_in_order(ev, k, scope, acc2);
                        assert(acc.extensions + (seq![x] + feed_extension_children(ev, k, scope, acc2))
                            =~= acc2.extensions + feed_extension_children(ev, k, scope, acc2));
                    },
                    Ok(false) => {
                        let (acc2, k) = feed_child(ev, j, name, attributes, scope, acc)->Ok_0;
                        assert(acc2.extensions == acc.extensions);
                        law_feed_extensions_in_order(ev, k, scope, acc2);
                    },
                    Err(_) => {},
                }
            },
            EventView::End { .. } => {
                assert(acc.extensions + seq![] =~= acc.extensions);
            },
            _ => {
                law_feed_extensions_in_order(ev, j + 1, scope, acc);
            },
        }
    }
}

/// Reads a feed whose start tag had attributes `attrs` and whose content
/// starts at `ev[j]`: `xml:base` and `xml:lang` come from the start tag.
pub open spec fn parse_feed(ev: Seq<EventView>, j: int, attrs: Seq<AttributeEventView>) -> Result<
    (FeedView, int),
    ErrorView,
> {
    match element_scope(attrs, Map::empty()) {
        Err(e) => Err(e),
        Ok(scope) => parse_feed_body(
            ev,
            j,
            scope,
            FeedView {
                base: attribute_value(attrs, "xml:base"@),
                lang: attribute_value(attrs, "xml:lang"@),
                ..empty_feed()
            },
        ),
    }
}

/// Reads a document: the first start tag must be `feed`.
pub open spec fn parse_feed_document(ev: Seq<EventView>, i: int) -> Result<FeedView, ErrorView>
    decreases ev.len() - i,
{
    if i < 0 || i >= ev.len() {
        Err(ErrorView::Eof)
    } else {
        match ev[i] {
            EventView::Start { name, attributes } => if name == "feed"@ {
                match parse_feed(ev, i + 1, attributes) {
                    Err(e) => Err(e),
                    Ok((f, _)) => Ok(f),
                }
            } else {
                Err(ErrorView::InvalidStartTag)
            },
            _ => parse_feed_document(ev, i + 1),
        }
    }
}

impl Feed {
    fn read_child(
        &mut self,
        events: &Vec<XmlEvent>,
        j: usize,
        name: &String,
        attributes: &Vec<XmlAttribute>,
        scope: &NamespaceScope,
    ) -> (r: Result<usize, Error>)
        requires
            j < events@.len(),
        ensures
            match feed_child(events_view(events@), j as int, name@, attributes_view(attributes@), scope@, old(self)@) {
                Ok((f, k)) => r matches Ok(x) && x == k && final(self)@ == f,
                Err(e) => r matches Err(x) && x@ == e,
            },
            r matches Ok(k) ==> j < k <= events@.len(),
    {
        let n = events.len();
        assert(j + 1 <= n);
        let nm = name.as_str();
        if str_eq(nm, "title") || str_eq(nm, "rights") || str_eq(nm, "subtitle") {
            let (t, k) = match Text::from_xml(events, j + 1) {
                Ok(x) => x,
                Err(e) => {
                    return Err(e);
                },
            };
            if str_eq(nm, "title") {
                self.title = t;
            } else if str_eq(nm, "rights") {
                self.rights = Some(t);
            } else {
                self.subtitle = Some(t);
            }
            Ok(k)
        } else if str_eq(nm, "id") || str_eq(nm, "updated") || str_eq(nm, "icon") || str_eq(nm, "logo") {
            let (t, k) = match atom_text(events, j + 1) {
                Ok(x) => x,
                Err(e) => {
                    return Err(e);
                },
            };
            if str_eq(nm, "id") {
                self.id = match t {
                    Some(x) => x,
                    None => String::new(),
                };
            } else if str_eq(nm, "updated") {
                self.updated = match t {
                    Some(x) => FixedDateTime::from_rfc3339(x),
                    None => default_fixed_datetime(),
                };
            } else if str_eq(nm, "icon") {
                self.icon = t;
            } else {
                self.logo = t;
            }
            Ok(k)
        } else if str_eq(nm, "author") || str_eq(nm, "contributor") {
            let (p, k) = match Person::from_xml_with_scope(events, j + 1, attributes, scope) {
                Ok(x) => x,
                Err(e) => {
                    return Err(e);
                },
            };
            let ghost before = self@;
            if str_eq(nm, "author") {
                self.authors.push(p);
                assert(self@.authors =~= before.authors.push(self.authors@.last()@));
            } else {
                self.contributors.push(p);
                assert(self@.contributors =~= before.contributors.push(self.contributors@.last()@));
            }
            Ok(k)
        } else if str_eq(nm, "generator") {
            let (g, k) = match Generator::from_xml(events, j + 1, attributes) {
                Ok(x) => x,
                Err(e) => {
                    return Err(e);
                },
            };
            self.generator = Some(g);
            Ok(k)
        } else if str_eq(nm, "entry") {
            let (x, k) = match Entry::from_xml_with_scope(events, j + 1, attributes, scope) {
                Ok(x) => x,
                Err(e) => {
                    return Err(e);
                },
            };
            let ghost before = self@;
            self.entries.push(x);
            assert(self@.entries =~= before.entries.push(self.entries@.last()@));
            Ok(k)
        } else {
            let is_category = str_eq(nm, "category");
            let is_link = str_eq(nm, "link");
            let category = Category::from_xml(attributes);
            let link = Link::from_xml(attributes);
            let k = match skip(events, j + 1) {
                Ok(k) => k,
                Err(e) => {
                    return Err(e);
                },
            };
            let ghost before = self@;
            if is_category {
                self.categories.push(category);
                assert(self@.categories =~= before.categories.push(self.categories@.last()@));
            } else if is_link {
                self.links.push(link);
                assert(self@.links =~= before.links.push(self.links@.last()@));
            }
            Ok(k)
        }
    }

    /// Reads a feed whose start tag had `attributes` and whose content starts
    /// at `events[pos]`; returns it and the index just past its end tag.
    ///
    /// Only unprefixed Atom names are read as core fields; foreign or prefixed
    /// children are kept as extensions.
    pub fn from_xml(events: &Vec<XmlEvent>, pos: usize, attributes: &Vec<XmlAttribute>) -> (r: Result<
        (Feed, usize),
        Error,
    >)
        ensures
            match parse_feed(events_view(events@), pos as int, attributes_view(attributes@)) {
                Ok((f, k)) => r matches Ok((x, y)) && x@ == f && y == k,
                Err(e) => r matches Err(x) && x@ == e,
            },
            r matches Ok((_, k)) ==> pos < k <= events@.len(),
    {
        let ghost ev = events_view(events@);
        let empty = NamespaceScope::new();
        let scope = match namespace_scope(attributes, &empty) {
            Ok(s) => s,
            Err(e) => {
                return Err(e);
            },
        };
        let mut feed = Feed::default();
        feed.base = find_attribute(attributes, "xml:base");
        feed.lang = find_attribute(attributes, "xml:lang");
        let n = events.len();
        if pos > n {
            return Err(Error::Eof);
        }
        let mut j = pos;
        loop
            invariant
                pos <= j <= n,
                n == events@.len(),
                ev == events_view(events@),
                parse_feed(ev, pos as int, attributes_view(attributes@)) == parse_feed_body(
                    ev,
                    j as int,
                    scope@,
                    feed@,
                ),
            decreases n - j,
        {
            if j >= n {
                return Err(Error::Eof);
            }
            assert(ev[j as int] == events@[j as int]@);
            match &events[j] {
                XmlEvent::Start { name, attributes: child_attributes } => {
                    let extension = match is_extension(name.as_str(), child_attributes, &scope) {
                        Ok(b) => b,
                        Err(e) => {
                            return Err(e);
                        },
                    };
                    if extension {
                        let ghost before = feed@;
                        let k = match parse_extension(events, j, &scope, &mut feed.extensions) {
                            Ok(k) => k,
                            Err(e) => {
                                return Err(e);
                            },
                        };
                        assert(feed@.extensions =~= before.extensions.push(feed.extensions@.last()@));
                        assert(feed@ == FeedView { extensions: before.extensions.push(feed.extensions@.last()@), ..before });
                        j = k;
                    } else {
                        j = match feed.read_child(events, j, name, child_attributes, &scope) {
                            Ok(k) => k,
                            Err(e) => {
                                return Err(e);
                            },
                        };
                    }
                },
                XmlEvent::End { .. } => {
                    return Ok((feed, j + 1));
                },
                _ => {
                    j = j + 1;
                },
            }
        }
    }

    /// Reads a feed from a document's events: the first start tag must be
    /// `feed`. `stopped` is the failure that stopped the reader of the
    /// events, if one did: running out of events means meeting it.
    pub fn read_from_events(events: &Vec<XmlEvent>, stopped: Option<XmlError>) -> (r: Result<Feed, Error>)
        ensures
            match document_outcome(parse_feed_document(events_view(events@), 0), stopped_view(stopped)) {
                Ok(f) => r matches Ok(x) && x@ == f,
                Err(e) => r matches Err(x) && x@ == e,
            },
    {
        let parsed = Feed::parse_document(events);
        assert(parsed matches Err(x) && x@ == ErrorView::Eof ==> parsed matches Err(Error::Eof));
        finish_document(parsed, stopped)
    }

    fn parse_document(events: &Vec<XmlEvent>) -> (r: Result<Feed, Error>)
        ensures
            match parse_feed_document(events_view(events@), 0) {
                Ok(f) => r matches Ok(x) && x@ == f,
                Err(e) => r matches Err(x) && x@ == e,
            },
    {
        let ghost ev = events_view(events@);
        let n = events.len();
        let mut i: usize = 0;
        while i < n
            invariant
                i <= n,
                n == events@.len(),
                ev == events_view(events@),
                parse_feed_document(ev, 0) == parse_feed_document(ev, i as int),
            decreases n - i,
        {
            assert(ev[i as int] == events@[i as int]@);
            match &events[i] {
                XmlEvent::Start { name, attributes } => {
                    proof {
                        reveal_strlit("feed");
                    }
                    if str_eq(name.as_str(), "feed") {
                        return match Feed::from_xml(events, i + 1, attributes) {
                            Ok((f, _)) => Ok(f),
                            Err(e) => Err(e),
                        };
                    } else {
                        return Err(Error::InvalidStartTag);
                    }
                },
                _ => {},
            }
            i = i + 1;
        }
        Err(Error::Eof)
    }

    /// Reads a feed from a document's bytes with the quick-xml reader.
    ///
    /// The reader's events ([`document_events`]) go to [`Feed::read_from_events`].
    pub fn read_from(bytes: &[u8]) -> (r: Result<Feed, Error>)
        ensures
            feed_read_view(r) == feed_read_outcome(
                document_events(bytes@).0,
                failure_view(document_events(bytes@).1),
            ),
    {
        let (events, stopped) = read_document(bytes);
        proof {
            assert(stopped_view(stopped) == failure_view(document_events(bytes@).1));
        }
        Feed::read_from_events(&events, stopped)
    }
}

/// What reading a document gives when its reader produced the events `ev`
/// and stopped with `stopped`: the outcome of parsing them as a feed
/// document.
pub open spec fn feed_read_outcome(ev: Seq<EventView>, stopped: Option<ErrorView>) -> Result<FeedView, ErrorView> {
    document_outcome(parse_feed_document(ev, 0), stopped)
}

/// The view of what reading a feed gave.
pub open spec fn feed_read_view(r: Result<Feed, Error>) -> Result<FeedView, ErrorView> {
    match r {
        Ok(f) => Ok(f@),
        Err(e) => Err(e@),
    }
}

// ---------------------------------------------------------------------------
// Writing
// ---------------------------------------------------------------------------

/// The events of the categories, each an empty `category` element.
pub open spec fn categories_events(cs: Seq<CategoryView>) -> Seq<EventView>
    decreases cs.len(),
{
    if cs.len() == 0 {
        seq![]
    } else {
        seq![
            EventView::Start { name: "category"@, attributes: category_attributes(cs[0]) },
            EventView::End { name: "category"@ },
        ] + categories_events(cs.drop_first())
    }
}

/// The start tag attributes of a link.
pub open spec fn link_attributes(l: LinkView) -> Seq<AttributeEventView> {
    seq![("href"@, l.0), ("rel"@, l.1)]
}

/// The events of the links, each an empty `link` element.
pub open spec fn links_events(ls: Seq<LinkView>) -> Seq<EventView>
    decreases ls.len(),
{
    if ls.len() == 0 {
        seq![]
    } else {
        seq![
            EventView::Start { name: "link"@, attributes: link_attributes(ls[0]) },
            EventView::End { name: "link"@ },
        ] + links_events(ls.drop_first())
    }
}

/// The events of an optional generator.
pub open spec fn generator_events(g: Option<GeneratorView>) -> Seq<EventView> {
    match g {
        Some(x) => seq![
            EventView::Start { name: "generator"@, attributes: generator_attributes(x) },
            EventView::Text(x.0),
            EventView::End { name: "generator"@ },
        ],
        None => seq![],
    }
}

/// The events of the entries, in order; the first failure is the result.
pub open spec fn entries_events(es: Seq<EntryView>) -> Result<Seq<EventView>, NamespaceErrorView>
    decreases es.len(),
{
    if es.len() == 0 {
        Ok(seq![])
    } else {
        match entry_events(es[0], seq![]) {
            Err(e) => Err(e),
            Ok(first) => match entries_events(es.drop_first()) {
                Err(e) => Err(e),
                Ok(rest) => Ok(first + rest),
            },
        }
    }
}

/// The start tag attributes of a feed: the Atom namespace declaration, then
/// `xml:base` and `xml:lang` when present.
pub open spec fn feed_attributes(f: FeedView) -> Seq<AttributeEventView> {
    seq![("xmlns"@, ATOM_NAMESPACE@)] + optional_attributes(
        seq![("xml:base"@, f.base), ("xml:lang"@, f.lang)],
    )
}

/// The start tag of a feed followed by its title, id and updated elements.
#[verifier::opaque]
pub open spec fn feed_head(f: FeedView) -> Seq<EventView> {
    seq![EventView::Start { name: "feed"@, attributes: feed_attributes(f) }] + text_element_events(
        "title"@,
        f.title,
    ) + text_element_events("id"@, f.id) + text_element_events("updated"@, f.updated)
}

/// The generator, icon, links, logo, rights and subtitle of a feed, in this
/// order.
#[verifier::opaque]
pub open spec fn feed_middle(f: FeedView) -> Seq<EventView> {
    generator_events(f.generator) + optional_text_element_events("icon"@, f.icon) + links_events(
        f.links,
    ) + optional_text_element_events("logo"@, f.logo) + optional_text_element_events(
        "rights"@,
        f.rights,
    ) + optional_text_element_events("subtitle"@, f.subtitle)
}

/// The events of a feed: title, id, updated, authors, categories,
/// contributors, generator, icon, links, logo, rights, subtitle, entries and
/// extensions, in this order, then the end tag.
pub open spec fn feed_events(f: FeedView) -> Result<Seq<EventView>, NamespaceErrorView> {
    match persons_events(f.authors, "author"@) {
        Err(e) => Err(e),
        Ok(a) => match persons_events(f.contributors, "contributor"@) {
            Err(e) => Err(e),
            Ok(c) => match entries_events(f.entries) {
                Err(e) => Err(e),
                Ok(en) => match extensions_events(f.extensions, atom_scope()) {
                    Err(e) => Err(e),
                    Ok(x) => Ok(
                        feed_head(f) + a + categories_events(f.categories) + c + feed_middle(f) + en
                            + x + seq![EventView::End { name: "feed"@ }],
                    ),
                },
            },
        },
    }
}

fn write_categories(writer: &mut Vec<XmlEvent>, categories: &Vec<Category>)
    ensures
        events_view(final(writer)@) == events_view(old(writer)@) + categories_events(
            category_views(categories@),
        ),
{
    let ghost w0 = events_view(writer@);
    let ghost cs = category_views(categories@);
    let n = categories.len();
    let mut i: usize = 0;
    assert(cs.skip(0) =~= cs);
    while i < n
        invariant
            i <= n,
            n == categories@.len(),
            cs == category_views(categories@),
            w0 + categories_events(cs) == events_view(writer@) + categories_events(cs.skip(i as int)),
        decreases n - i,
    {
        let ghost s = cs.skip(i as int);
        assert(s[0] == categories@[i as int]@);
        assert(s.drop_first() =~= cs.skip(i + 1));
        let ghost before = events_view(writer@);
        let attributes = categories[i].xml_attributes();
        writer.push(XmlEvent::Start { name: String::from_str("category"), attributes });
        writer.push(XmlEvent::End { name: String::from_str("category") });
        assert(events_view(writer@) =~= before + seq![
            EventView::Start { name: "category"@, attributes: category_attributes(s[0]) },
            EventView::End { name: "category"@ },
        ]);
        assert(before + categories_events(s) =~= events_view(writer@) + categories_events(cs.skip(i + 1)));
        i = i + 1;
    }
    assert(cs.skip(n as int) =~= Seq::<CategoryView>::empty());
    assert(events_view(writer@) + categories_events(cs.skip(n as int)) =~= events_view(writer@));
}

fn write_links(writer: &mut Vec<XmlEvent>, links: &Vec<Link>)
    ensures
        events_view(final(writer)@) == events_view(old(writer)@) + links_events(link_views(links@)),
{
    let ghost w0 = events_view(writer@);
    let ghost ls = link_views(links@);
    let n = links.len();
    let mut i: usize = 0;
    assert(ls.skip(0) =~= ls);
    while i < n
        invariant
            i <= n,
            n == links@.len(),
            ls == link_views(links@),
            w0 + links_events(ls) == events_view(writer@) + links_events(ls.skip(i as int)),
        decreases n - i,
    {
        let ghost s = ls.skip(i as int);
        assert(s[0] == links@[i as int]@);
        assert(s.drop_first() =~= ls.skip(i + 1));
        let ghost before = events_view(writer@);
        let attributes = links[i].xml_attributes();
        writer.push(XmlEvent::Start { name: String::from_str("link"), attributes });
        writer.push(XmlEvent::End { name: String::from_str("link") });
        assert(events_view(writer@) =~= before + seq![
            EventView::Start { name: "link"@, attributes: link_attributes(s[0]) },
            EventView::End { name: "link"@ },
        ]);
        assert(before + links_events(s) =~= events_view(writer@) + links_events(ls.skip(i + 1)));
        i = i + 1;
    }
    assert(ls.skip(n as int) =~= Seq::<LinkView>::empty());
    assert(events_view(writer@) + links_events(ls.skip(n as int)) =~= events_view(writer@));
}

fn write_entries(writer: &mut Vec<XmlEvent>, entries: &Vec<Entry>) -> (r: Result<(), XmlError>)
    ensures
        match entries_events(entry_views(entries@)) {
            Ok(evs) => r is Ok && events_view(final(writer)@) == events_view(old(writer)@) + evs,
            Err(v) => r matches Err(e) && e@ == ErrorView::Namespace(v),
        },
{
    let ghost w0 = events_view(writer@);
    let ghost es = entry_views(entries@);
    let ghost mut produced: Seq<EventView> = seq![];
    let n = entries.len();
    let mut i: usize = 0;
    assert(es.skip(0) =~= es);
    while i < n
        invariant
            i <= n,
            n == entries@.len(),
            es == entry_views(entries@),
            events_view(writer@) == w0 + produced,
            entries_events(es) == crate::extension_writer::after(
                produced,
                entries_events(es.skip(i as int)),
            ),
        decreases n - i,
    {
        let ghost s = es.skip(i as int);
        assert(s[0] == entries@[i as int]@);
        assert(s.drop_first() =~= es.skip(i + 1));
        match entries[i].to_xml(writer) {
            Ok(()) => {},
            Err(e) => {
                return Err(e);
            },
        }
        proof {
            let evs = entry_events(s[0], seq![])->Ok_0;
            match entries_events(es.skip(i + 1)) {
                Ok(rest) => {
                    assert(produced + (evs + rest) =~= (produced + evs) + rest);
                },
                Err(_) => {},
            }
            produced = produced + evs;
        }
        i = i + 1;
    }
    assert(es.skip(n as int) =~= Seq::<EntryView>::empty());
    assert(produced + Seq::<EventView>::empty() =~= produced);
    Ok(())
}

fn write_optional_text(writer: &mut Vec<XmlEvent>, name: &str, text: &Option<String>)
    ensures
        events_view(final(writer)@) == events_view(old(writer)@) + optional_text_element_events(
            name@,
            text.deep_view(),
        ),
{
    let ghost w0 = events_view(writer@);
    match text {
        Some(t) => write_text_element(writer, name, t.as_str()),
        None => {},
    }
    assert(events_view(writer@) =~= w0 + optional_text_element_events(name@, text.deep_view()));
}

fn write_optional_text_object(writer: &mut Vec<XmlEvent>, name: &str, text: &Option<Text>)
    ensures
        events_view(final(writer)@) == events_view(old(writer)@) + optional_text_element_events(
            name@,
            opt_text_view(*text),
        ),
{
    let ghost w0 = events_view(writer@);
    match text {
        Some(t) => write_text_element(writer, name, t.as_str()),
        None => {},
    }
    assert(events_view(writer@) =~= w0 + optional_text_element_events(name@, opt_text_view(*text)));
}

impl Feed {
    /// The attributes of this feed's start tag.
    fn xml_attributes(&self) -> (r: Vec<XmlAttribute>)
        ensures
            attributes_view(r@) == feed_attributes(self@),
    {
        let mut r: Vec<XmlAttribute> = Vec::new();
        r.push(XmlAttribute { key: String::from_str("xmlns"), value: String::from_str(ATOM_NAMESPACE) });
        crate::elements::push_optional_attribute(&mut r, "xml:base", &self.base);
        crate::elements::push_optional_attribute(&mut r, "xml:lang", &self.lang);
        proof {
            reveal_with_fuel(optional_attributes, 3);
            assert(attributes_view(r@) =~= feed_attributes(self@));
        }
        r
    }

    /// Writes the start tag and the title, id and updated elements.
    fn write_head(&self, writer: &mut Vec<XmlEvent>)
        ensures
            events_view(final(writer)@) == events_view(old(writer)@) + feed_head(self@),
    {
        let ghost w0 = events_view(writer@);
        let attributes = self.xml_attributes();
        writer.push(XmlEvent::Start { name: String::from_str("feed"), attributes });
        let ghost w1 = events_view(writer@);
        write_text_element(writer, "title", self.title.as_str());
        write_text_element(writer, "id", self.id.as_str());
        let updated = self.updated.to_rfc3339();
        write_text_element(writer, "updated", updated.as_str());
        assert(w1 =~= w0 + seq![EventView::Start { name: "feed"@, attributes: feed_attributes(self@) }]);
        reveal(feed_head);
        assert(events_view(writer@) =~= w0 + feed_head(self@));
    }

    /// Writes the generator, icon, links, logo, rights and subtitle.
    #[verifier::spinoff_prover]
    #[verifier::rlimit(40)]
    fn write_middle(&self, writer: &mut Vec<XmlEvent>)
        ensures
            events_view(final(writer)@) == events_view(old(writer)@) + feed_middle(self@),
    {
        let ghost w4 = events_view(writer@);
        match &self.generator {
            Some(g) => {
                let attributes = g.xml_attributes();
                writer.push(XmlEvent::Start { name: String::from_str("generator"), attributes });
                writer.push(XmlEvent::Text(copy_string(&g.value)));
                writer.push(XmlEvent::End { name: String::from_str("generator") });
            },
            None => {},
        }
        let ghost w5 = events_view(writer@);
        assert(w5 =~= w4 + generator_events(self@.generator));
        write_optional_text(writer, "icon", &self.icon);
        write_links(writer, &self.links);
        write_optional_text(writer, "logo", &self.logo);
        write_optional_text_object(writer, "rights", &self.rights);
        write_optional_text_object(writer, "subtitle", &self.subtitle);
        reveal(feed_middle);
        assert(events_view(writer@) =~= w4 + feed_middle(self@));
    }

    /// Writes this feed as events.
    #[verifier::spinoff_prover]
    #[verifier::rlimit(40)]
    pub fn to_xml(&self, writer: &mut Vec<XmlEvent>) -> (r: Result<(), XmlError>)
        ensures
            match feed_events(self@) {
                Ok(evs) => r is Ok && events_view(final(writer)@) == events_view(old(writer)@) + evs,
                Err(v) => r matches Err(e) && e@ == ErrorView::Namespace(v),
            },
    {
        let ghost w0 = events_view(writer@);
        self.write_head(writer);
        let ghost w1 = events_view(writer@);
        match write_persons(writer, &self.authors, "author") {
            Ok(()) => {},
            Err(e) => {
                return Err(e);
            },
        }
        let ghost w2 = events_view(writer@);
        write_categories(writer, &self.categories);
        let ghost w3 = events_view(writer@);
        match write_persons(writer, &self.contributors, "contributor") {
            Ok(()) => {},
            Err(e) => {
                return Err(e);
            },
        }
        let ghost w4 = events_view(writer@);
        self.write_middle(writer);
        let ghost w6 = events_view(writer@);
        match write_entries(writer, &self.entries) {
            Ok(()) => {},
            Err(e) => {
                return Err(e);
            },
        }
        let ghost w7 = events_view(writer@);
        let scope = new_atom_scope();
        match write_extensions(writer, &self.extensions, &scope) {
            Ok(()) => {},
            Err(e) => {
                return Err(e);
            },
        }
        let ghost w8 = events_view(writer@);
        writer.push(XmlEvent::End { name: String::from_str("feed") });
        assert(events_view(writer@) =~= w8.push(EventView::End { name: "feed"@ }));
        proof {
            let f = self@;
            let a = persons_events(f.authors, "author"@)->Ok_0;
            let c = persons_events(f.contributors, "contributor"@)->Ok_0;
            let en = entries_events(f.entries)->Ok_0;
            let x = extensions_events(f.extensions, atom_scope())->Ok_0;
            let end = seq![EventView::End { name: "feed"@ }];
            let p1 = feed_head(f) + a;
            let p2 = p1 + categories_events(f.categories);
            let p3 = p2 + c;
            let p4 = p3 + feed_middle(f);
            let p5 = p4 + en;
            let p6 = p5 + x;
            assert(w2 =~= w0 + p1);
            assert(w3 =~= w0 + p2);
            assert(w4 =~= w0 + p3);
            assert(w6 =~= w0 + p4);
            assert(w7 =~= w0 + p5);
            assert(w8 =~= w0 + p6);
            assert(events_view(writer@) =~= w0 + (p6 + end));
        }
        Ok(())
    }

    /// Writes this feed with the quick-xml writer into `out`, as `config`
    /// asks, and returns the output buffer.
    ///
    /// The events written are [`feed_events`]; when they cannot be made (an
    /// extension name or declaration is invalid), that error is returned.
    /// Otherwise the output is `out` followed by [`document_text`] of those
    /// events. With indentation, the spaces of the deepest level must fit in
    /// `isize::MAX` ([`indentation_fits`]): the writer keeps them in a buffer.
    pub fn write_with_config(&self, out: Vec<u8>, write_config: WriteConfig) -> (r: Result<Vec<u8>, Error>)
        requires
            feed_events(self@) matches Ok(ev) ==> indentation_fits(ev, write_config.indent_size),
        ensures
            match feed_events(self@) {
                Ok(ev) => r matches Ok(b) && b@ == out@ + encode_utf8(
                    document_text(ev, write_config.write_document_declaration, write_config.indent_size),
                ),
                Err(v) => r matches Err(e) && e@ == ErrorView::Namespace(v),
            },
    {
        let mut events: Vec<XmlEvent> = Vec::new();
        match self.to_xml(&mut events) {
            Ok(()) => {},
            Err(e) => {
                return Err(Error::Xml(e));
            },
        }
        match write_events(&events, out, write_config) {
            Ok(bytes) => Ok(bytes),
            Err(e) => Err(Error::Xml(e)),
        }
    }

    /// Writes this feed into `out` with the default [`WriteConfig`]: with the
    /// document declaration, without indentation.
    pub fn write_to(&self, out: Vec<u8>) -> (r: Result<Vec<u8>, Error>)
        ensures
            match feed_events(self@) {
                Ok(ev) => r matches Ok(b) && b@ == out@ + encode_utf8(document_text(ev, true, None)),
                Err(v) => r matches Err(e) && e@ == ErrorView::Namespace(v),
            },
    {
        self.write_with_config(out, WriteConfig::default())
    }

    /// This feed as a document, written with the default [`WriteConfig`];
    /// empty when it cannot be written.
    pub fn to_string(&self) -> (r: String)
        ensures
            match feed_events(self@) {
                Ok(ev) => r@ == document_text(ev, true, None),
                Err(_) => r@.len() == 0,
            },
    {
        let empty: Vec<u8> = Vec::new();
        match self.write_to(empty) {
            Ok(bytes) => {
                let ghost t = document_text(feed_events(self@)->Ok_0, true, None);
                proof {
                    lemma_document_bytes(t);
                    assert(bytes@ =~= encode_utf8(t));
                }
                match utf8_string(bytes) {
                    Some(s) => {
                        proof {
                            lemma_document_bytes(s@);
                        }
                        s
                    },
                    None => String::new(),
                }
            },
            Err(_) => String::new(),
        }
    }
}

/// Reads with [`Feed::read_from`].
impl std::str::FromStr for Feed {
    type Err = Error;

    fn from_str(s: &str) -> (r: Result<Feed, Error>)
        ensures
            feed_read_view(r) == feed_read_outcome(
                document_events(s.spec_bytes()).0,
                failure_view(document_events(s.spec_bytes()).1),
            ),
    {
        Feed::read_from(s.as_bytes())
    }
}

/// A copy of a list of categories.
fn copy_categories(v: &Vec<Category>) -> (r: Vec<Category>)
    ensures
        category_views(r@) == category_views(v@),
{
    let mut out: Vec<Category> = Vec::new();
    let n = v.len();
    let mut i: usize = 0;
    while i < n
        invariant
            i <= n,
            n == v@.len(),
            out@.len() == i,
            forall|k: int| 0 <= k < i ==> #[trigger] out@[k]@ == v@[k]@,
        decreases n - i,
    {
        out.push(v[i].clone());
        i = i + 1;
    }
    assert(category_views(out@) =~= category_views(v@));
    out
}

/// A copy of a list of links.
fn copy_links(v: &Vec<Link>) -> (r: Vec<Link>)
    ensures
        link_views(r@) == link_views(v@),
{
    let mut out: Vec<Link> = Vec::new();
    let n = v.len();
    let mut i: usize = 0;
    while i < n
        invariant
            i <= n,
            n == v@.len(),
            out@.len() == i,
            forall|k: int| 0 <= k < i ==> #[trigger] out@[k]@ == v@[k]@,
        decreases n - i,
    {
        out.push(v[i].clone());
        i = i + 1;
    }
    assert(link_views(out@) =~= link_views(v@));
    out
}

/// A copy of a list of entries.
fn copy_entries(v: &Vec<Entry>) -> (r: Vec<Entry>)
    ensures
        entry_views(r@) == entry_views(v@),
{
    let mut out: Vec<Entry> = Vec::new();
    let n = v.len();
    let mut i: usize = 0;
    while i < n
        invariant
            i <= n,
            n == v@.len(),
            out@.len() == i,
            forall|k: int| 0 <= k < i ==> #[trigger] out@[k]@ == v@[k]@,
        decreases n - i,
    {
        out.push(v[i].clone());
        i = i + 1;
    }
    assert(entry_views(out@) =~= entry_views(v@));
    out
}

impl Clone for Feed {
    fn clone(&self) -> (r: Self)
        ensures
            r@ == self@,
    {
        let generator = match &self.generator {
            Some(g) => Some(g.clone()),
            None => None,
        };
        let rights = match &self.rights {
            Some(t) => Some(t.clone()),
            None => None,
        };
        let subtitle = match &self.subtitle {
            Some(t) => Some(t.clone()),
            None => None,
        };
        let extensions = copy_extensions(&self.extensions);
        let r = Feed {
            title: self.title.clone(),
            id: copy_string(&self.id),
            updated: self.updated.clone(),
            authors: copy_persons(&self.authors),
            categories: copy_categories(&self.categories),
            contributors: copy_persons(&self.contributors),
            generator,
            icon: copy_opt_string(&self.icon),
            links: copy_links(&self.links),
            logo: copy_opt_string(&self.logo),
            rights,
            subtitle,
            entries: copy_entries(&self.entries),
            extensions,
            base: copy_opt_string(&self.base),
            lang: copy_opt_string(&self.lang),
        };
        assert(extension_views(r.extensions@) =~= extension_views(self.extensions@));
        r
    }
}

} // verus!
