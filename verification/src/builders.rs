//! Builders: set some fields, leave the others at their default, and build.
//!
//! A builder starts from the default value of what it builds. Every setter
//! stores its value and hands the builder back; the `each` setters
//! (`attribute`, `author`, ...) append one item to a list. `build` gives a
//! copy of the value built so far.

use vstd::prelude::*;

use crate::chars::{copy_string};
use crate::elements::{Category, CategoryView, FixedDateTime, Generator, GeneratorView, Link, LinkView, Text};
use crate::entry::{person_views, Entry, EntryView};
use crate::extension::{
    attribute_views, content_views, copy_extension, copy_name, lemma_content_view, AttributeView,
    ExpandedName, Extension, ExtensionAttribute, ExtensionContent, ExtensionView, NameView,
};
use crate::feed::{
    category_views, empty_feed, entry_views, link_views, opt_generator_view, opt_text_view, Feed,
    FeedView,
};
use crate::person::{empty_person, Person, PersonView};
use crate::toxml::extension_views;

verus! {

/// The name with no namespace, an empty local name and no preferred prefix.
pub open spec fn empty_name() -> NameView {
    NameView { namespace_uri: None, local_name: Seq::empty(), preferred_prefix: None }
}

// ---------------------------------------------------------------------------
// ExpandedName
// ---------------------------------------------------------------------------

/// Builder for [`ExpandedName`].
#[derive(Debug)]
pub struct ExpandedNameBuilder {
    value: ExpandedName,
}

impl Default for ExpandedNameBuilder {
    fn default() -> (r: ExpandedNameBuilder)
        ensures
            r.built() == empty_name(),
    {
        ExpandedNameBuilder {
            value: ExpandedName { namespace_uri: None, local_name: String::new(), preferred_prefix: None },
        }
    }
}

impl ExpandedNameBuilder {
    /// The name built so far.
    pub closed spec fn built(&self) -> NameView {
        self.value@
    }

    /// Sets the namespace URI.
    pub fn namespace_uri(&mut self, value: Option<String>) -> (r: &mut Self)
        ensures
            r.built() == (NameView { namespace_uri: value.deep_view(), ..old(self).built() }),
            *final(self) == *final(r),
    {
        self.value.namespace_uri = value;
        self
    }

    /// Sets the local name.
    pub fn local_name(&mut self, value: String) -> (r: &mut Self)
        ensures
            r.built() == (NameView { local_name: value@, ..old(self).built() }),
            *final(self) == *final(r),
    {
        self.value.local_name = value;
        self
    }

    /// Sets the preferred prefix.
    pub fn preferred_prefix(&mut self, value: Option<String>) -> (r: &mut Self)
        ensures
            r.built() == (NameView { preferred_prefix: value.deep_view(), ..old(self).built() }),
            *final(self) == *final(r),
    {
        self.value.preferred_prefix = value;
        self
    }

    /// Builds a new `ExpandedName`.
    pub fn build(&self) -> (r: ExpandedName)
        ensures
            r@ == self.built(),
    {
        copy_name(&self.value)
    }
}

// ---------------------------------------------------------------------------
// ExtensionAttribute
// ---------------------------------------------------------------------------

/// Builder for [`ExtensionAttribute`].
#[derive(Debug)]
pub struct ExtensionAttributeBuilder {
    value: ExtensionAttribute,
}

impl Default for ExtensionAttributeBuilder {
    fn default() -> (r: ExtensionAttributeBuilder)
        ensures
            r.built() == (AttributeView { name: empty_name(), value: Seq::empty() }),
    {
        ExtensionAttributeBuilder {
            value: ExtensionAttribute {
                name: ExpandedName { namespace_uri: None, local_name: String::new(), preferred_prefix: None },
                value: String::new(),
            },
        }
    }
}

impl ExtensionAttributeBuilder {
    /// The attribute built so far.
    pub closed spec fn built(&self) -> AttributeView {
        self.value@
    }

    /// Sets the name.
    pub fn name(&mut self, value: ExpandedName) -> (r: &mut Self)
        ensures
            r.built() == (AttributeView { name: value@, ..old(self).built() }),
            *final(self) == *final(r),
    {
        self.value.name = value;
        self
    }

    /// Sets the value.
    pub fn value(&mut self, value: String) -> (r: &mut Self)
        ensures
            r.built() == (AttributeView { value: value@, ..old(self).built() }),
            *final(self) == *final(r),
    {
        self.value.value = value;
        self
    }

    /// Builds a new `ExtensionAttribute`.
    pub fn build(&self) -> (r: ExtensionAttribute)
        ensures
            r@ == self.built(),
    {
        ExtensionAttribute { name: copy_name(&self.value.name), value: copy_string(&self.value.value) }
    }
}

// ---------------------------------------------------------------------------
// Extension
// ---------------------------------------------------------------------------

/// Builder for [`Extension`].
#[derive(Debug)]
pub struct ExtensionBuilder {
    value: Extension,
}

impl Default for ExtensionBuilder {
    fn default() -> (r: ExtensionBuilder)
        ensures
            r.built() == (ExtensionView { name: empty_name(), attributes: seq![], content: seq![] }),
    {
        let value = Extension {
            name: ExpandedName { namespace_uri: None, local_name: String::new(), preferred_prefix: None },
            attributes: Vec::new(),
            content: Vec::new(),
        };
        proof {
            lemma_content_view(value);
            assert(attribute_views(value.attributes@) =~= Seq::<AttributeView>::empty());
            assert(value@.content =~= Seq::<crate::extension::ContentView>::empty());
        }
        ExtensionBuilder { value }
    }
}

impl ExtensionBuilder {
    /// The extension built so far.
    pub closed spec fn built(&self) -> ExtensionView {
        self.value@
    }

    /// Sets the name.
    pub fn name(&mut self, value: ExpandedName) -> (r: &mut Self)
        ensures
            r.built() == (ExtensionView { name: value@, ..old(self).built() }),
            *final(self) == *final(r),
    {
        proof {
            lemma_content_view(self.value);
        }
        self.value.name = value;
        proof {
            lemma_content_view(self.value);
        }
        self
    }

    /// Sets the attributes.
    pub fn attributes(&mut self, value: Vec<ExtensionAttribute>) -> (r: &mut Self)
        ensures
            r.built() == (ExtensionView { attributes: attribute_views(value@), ..old(self).built() }),
            *final(self) == *final(r),
    {
        proof {
            lemma_content_view(self.value);
        }
        self.value.attributes = value;
        proof {
            lemma_content_view(self.value);
        }
        self
    }

    /// Appends one attribute.
    pub fn attribute(&mut self, item: ExtensionAttribute) -> (r: &mut Self)
        ensures
            r.built() == (ExtensionView {
                attributes: old(self).built().attributes.push(item@),
                ..old(self).built()
            }),
            *final(self) == *final(r),
    {
        proof {
            lemma_content_view(self.value);
        }
        let ghost before = attribute_views(self.value.attributes@);
        self.value.attributes.push(item);
        proof {
            lemma_content_view(self.value);
            assert(attribute_views(self.value.attributes@) =~= before.push(item@));
        }
        self
    }

    /// Sets the content.
    pub fn content(&mut self, value: Vec<ExtensionContent>) -> (r: &mut Self)
        ensures
            r.built() == (ExtensionView { content: content_views(value@), ..old(self).built() }),
            *final(self) == *final(r),
    {
        self.value.content = value;
        proof {
            lemma_content_view(self.value);
        }
        self
    }

    /// Appends one content item.
    pub fn content_item(&mut self, item: ExtensionContent) -> (r: &mut Self)
        ensures
            r.built() == (ExtensionView {
                content: old(self).built().content.push(item@),
                ..old(self).built()
            }),
            *final(self) == *final(r),
    {
        proof {
            lemma_content_view(self.value);
        }
        let ghost before = content_views(self.value.content@);
        self.value.content.push(item);
        proof {
            lemma_content_view(self.value);
            assert(content_views(self.value.content@) =~= before.push(item@));
        }
        self
    }

    /// Builds a new `Extension`.
    pub fn build(&self) -> (r: Extension)
        ensures
            r@ == self.built(),
    {
        copy_extension(&self.value)
    }
}

// ---------------------------------------------------------------------------
// Person
// ---------------------------------------------------------------------------

/// Builder for [`Person`].
#[derive(Debug)]
pub struct PersonBuilder {
    value: Person,
}

impl Default for PersonBuilder {
    fn default() -> (r: PersonBuilder)
        ensures
            r.built() == empty_person(),
    {
        PersonBuilder { value: Person::default() }
    }
}

impl PersonBuilder {
    /// The person built so far.
    pub closed spec fn built(&self) -> PersonView {
        self.value@
    }

    /// Sets the name.
    pub fn name(&mut self, value: String) -> (r: &mut Self)
        ensures
            r.built() == (PersonView { name: value@, ..old(self).built() }),
            *final(self) == *final(r),
    {
        self.value.name = value;
        self
    }

    /// Sets the email address.
    pub fn email(&mut self, value: Option<String>) -> (r: &mut Self)
        ensures
            r.built() == (PersonView { email: value.deep_view(), ..old(self).built() }),
            *final(self) == *final(r),
    {
        self.value.email = value;
        self
    }

    /// Sets the Web page.
    pub fn uri(&mut self, value: Option<String>) -> (r: &mut Self)
        ensures
            r.built() == (PersonView { uri: value.deep_view(), ..old(self).built() }),
            *final(self) == *final(r),
    {
        self.value.uri = value;
        self
    }

    /// Sets the extensions.
    pub fn extensions(&mut self, value: Vec<Extension>) -> (r: &mut Self)
        ensures
            r.built() == (PersonView { extensions: extension_views(value@), ..old(self).built() }),
            *final(self) == *final(r),
    {
        self.value.extensions = value;
        self
    }

    /// Builds a new `Person`.
    pub fn build(&self) -> (r: Person)
        ensures
            r@ == self.built(),
    {
        self.value.clone()
    }
}

// ---------------------------------------------------------------------------
// Feed
// ---------------------------------------------------------------------------

/// One call of a [`FeedBuilder`] setter, with the view of its argument: a
/// plural name sets a whole list, a singular one appends to it.
pub enum FeedSetting {
    Title(Seq<char>),
    Id(Seq<char>),
    Updated(Seq<char>),
    Authors(Seq<PersonView>),
    Author(PersonView),
    Categories(Seq<CategoryView>),
    Category(CategoryView),
    Contributors(Seq<PersonView>),
    Contributor(PersonView),
    Generator(Option<GeneratorView>),
    Icon(Option<Seq<char>>),
    Links(Seq<LinkView>),
    Link(LinkView),
    Logo(Option<Seq<char>>),
    Rights(Option<Seq<char>>),
    Subtitle(Option<Seq<char>>),
    Entries(Seq<EntryView>),
    Entry(EntryView),
    Extensions(Seq<ExtensionView>),
    Extension(ExtensionView),
    Base(Option<Seq<char>>),
    Lang(Option<Seq<char>>),
}

/// The feed after one setter call.
pub open spec fn apply_feed_setting(f: FeedView, s: FeedSetting) -> FeedView {
    match s {
        FeedSetting::Title(v) => FeedView { title: v, ..f },
        FeedSetting::Id(v) => FeedView { id: v, ..f },
        FeedSetting::Updated(v) => FeedView { updated: v, ..f },
        FeedSetting::Authors(v) => FeedView { authors: v, ..f },
        FeedSetting::Author(v) => FeedView { authors: f.authors.push(v), ..f },
        FeedSetting::Categories(v) => FeedView { categories: v, ..f },
        FeedSetting::Category(v) => FeedView { categories: f.categories.push(v), ..f },
        FeedSetting::Contributors(v) => FeedView { contributors: v, ..f },
        FeedSetting::Contributor(v) => FeedView { contributors: f.contributors.push(v), ..f },
        FeedSetting::Generator(v) => FeedView { generator: v, ..f },
        FeedSetting::Icon(v) => FeedView { icon: v, ..f },
        FeedSetting::Links(v) => FeedView { links: v, ..f },
        FeedSetting::Link(v) => FeedView { links: f.links.push(v), ..f },
        FeedSetting::Logo(v) => FeedView { logo: v, ..f },
        FeedSetting::Rights(v) => FeedView { rights: v, ..f },
        FeedSetting::Subtitle(v) => FeedView { subtitle: v, ..f },
        FeedSetting::Entries(v) => FeedView { entries: v, ..f },
        FeedSetting::Entry(v) => FeedView { entries: f.entries.push(v), ..f },
        FeedSetting::Extensions(v) => FeedView { extensions: v, ..f },
        FeedSetting::Extension(v) => FeedView { extensions: f.extensions.push(v), ..f },
        FeedSetting::Base(v) => FeedView { base: v, ..f },
        FeedSetting::Lang(v) => FeedView { lang: v, ..f },
    }
}

/// The feed after setter calls, one after the other.
pub open spec fn apply_feed_settings(f: FeedView, ss: Seq<FeedSetting>) -> FeedView
    decreases ss.len(),
{
    if ss.len() == 0 {
        f
    } else {
        apply_feed_setting(apply_feed_settings(f, ss.drop_last()), ss.last())
    }
}

/// The field of a feed that a setter call changes, numbered in the order of
/// [`FeedView`]'s fields.
pub open spec fn setting_field(s: FeedSetting) -> nat {
    match s {
        FeedSetting::Title(_) => 0,
        FeedSetting::Id(_) => 1,
        FeedSetting::Updated(_) => 2,
        FeedSetting::Authors(_) | FeedSetting::Author(_) => 3,
        FeedSetting::Categories(_) | FeedSetting::Category(_) => 4,
        FeedSetting::Contributors(_) | FeedSetting::Contributor(_) => 5,
        FeedSetting::Generator(_) => 6,
        FeedSetting::Icon(_) => 7,
        FeedSetting::Links(_) | FeedSetting::Link(_) => 8,
        FeedSetting::Logo(_) => 9,
        FeedSetting::Rights(_) => 10,
        FeedSetting::Subtitle(_) => 11,
        FeedSetting::Entries(_) | FeedSetting::Entry(_) => 12,
        FeedSetting::Extensions(_) | FeedSetting::Extension(_) => 13,
        FeedSetting::Base(_) => 14,
        FeedSetting::Lang(_) => 15,
    }
}

/// Whether a setter call sets its whole field rather than appending to it.
pub open spec fn sets_whole_field(s: FeedSetting) -> bool {
    !(s is Author || s is Category || s is Contributor || s is Link || s is Entry || s is Extension)
}

/// Whether the feeds `f` and `g` have the same field `k`.
pub open spec fn same_field(f: FeedView, g: FeedView, k: nat) -> bool {
    if k == 0 {
        f.title == g.title
    } else if k == 1 {
        f.id == g.id
    } else if k == 2 {
        f.updated == g.updated
    } else if k == 3 {
        f.authors == g.authors
    } else if k == 4 {
        f.categories == g.categories
    } else if k == 5 {
        f.contributors == g.contributors
    } else if k == 6 {
        f.generator == g.generator
    } else if k == 7 {
        f.icon == g.icon
    } else if k == 8 {
        f.links == g.links
    } else if k == 9 {
        f.logo == g.logo
    } else if k == 10 {
        f.rights == g.rights
    } else if k == 11 {
        f.subtitle == g.subtitle
    } else if k == 12 {
        f.entries == g.entries
    } else if k == 13 {
        f.extensions == g.extensions
    } else if k == 14 {
        f.base == g.base
    } else {
        f.lang == g.lang
    }
}

/// Whether the feeds `f` and `g` agree on every field but the field `k`.
pub open spec fn agree_but(f: FeedView, g: FeedView, k: nat) -> bool {
    forall|j: nat| j < 16 && j != k ==> #[trigger] same_field(f, g, j)
}

/// A setter call changes its own field of the feed and no other.
pub proof fn law_feed_setting_changes_its_field(f: FeedView, s: FeedSetting)
    ensures
        agree_but(f, apply_feed_setting(f, s), setting_field(s)),
{
}

/// Setter calls on different fields can come in either order.
pub proof fn law_feed_settings_commute(f: FeedView, a: FeedSetting, b: FeedSetting)
    requires
        setting_field(a) != setting_field(b),
    ensures
        apply_feed_setting(apply_feed_setting(f, a), b) == apply_feed_setting(apply_feed_setting(f, b), a),
{
}

/// A setter call that sets a whole field undoes what earlier calls did to
/// that field.
pub proof fn law_feed_setting_overrides(f: FeedView, a: FeedSetting, b: FeedSetting)
    requires
        setting_field(a) == setting_field(b),
        sets_whole_field(b),
    ensures
        apply_feed_setting(apply_feed_setting(f, a), b) == apply_feed_setting(f, b),
{
}

/// After any setter calls, every field that none of them touched keeps its
/// value.
pub proof fn law_feed_untouched_fields(f: FeedView, ss: Seq<FeedSetting>, k: nat)
    requires
        k < 16,
        forall|i: int| 0 <= i < ss.len() ==> setting_field(#[trigger] ss[i]) != k,
    ensures
        same_field(f, apply_feed_settings(f, ss), k),
    decreases ss.len(),
{
    if ss.len() > 0 {
        assert forall|i: int| 0 <= i < ss.drop_last().len() implies setting_field(#[trigger] ss.drop_last()[i]) != k by {
            assert(ss.drop_last()[i] == ss[i]);
        }
        law_feed_untouched_fields(f, ss.drop_last(), k);
        law_feed_setting_changes_its_field(apply_feed_settings(f, ss.drop_last()), ss.last());
        assert(setting_field(ss.last()) != k);
    }
}

/// After any setter calls, a field last set whole by the call `ss[i]`, and
/// touched by no call after it, holds what that call set.
pub proof fn law_feed_last_setting_wins(f: FeedView, g: FeedView, ss: Seq<FeedSetting>, i: int)
    requires
        0 <= i < ss.len(),
        sets_whole_field(ss[i]),
        forall|j: int| i < j < ss.len() ==> setting_field(#[trigger] ss[j]) != setting_field(ss[i]),
    ensures
        same_field(apply_feed_settings(f, ss), apply_feed_setting(g, ss[i]), setting_field(ss[i])),
    decreases ss.len(),
{
    let k = setting_field(ss[i]);
    let prev = apply_feed_settings(f, ss.drop_last());
    if i == ss.len() - 1 {
        assert(ss.last() == ss[i]);
    } else {
        assert(ss.drop_last()[i] == ss[i]);
        assert forall|j: int| i < j < ss.drop_last().len() implies setting_field(#[trigger] ss.drop_last()[j]) != k by {
            assert(ss.drop_last()[j] == ss[j]);
        }
        law_feed_last_setting_wins(f, g, ss.drop_last(), i);
        assert(setting_field(ss.last()) != k) by {
            assert(ss.last() == ss[ss.len() - 1]);
        }
        law_feed_setting_changes_its_field(prev, ss.last());
    }
}

/// Builder for [`Feed`].
#[derive(Debug)]
pub struct FeedBuilder {
    value: Feed,
}

impl Default for FeedBuilder {
    fn default() -> (r: FeedBuilder)
        ensures
            r.built() == empty_feed(),
    {
        FeedBuilder { value: Feed::default() }
    }
}

impl FeedBuilder {
    /// The feed built so far.
    pub closed spec fn built(&self) -> FeedView {
        self.value@
    }

    /// Sets the title.
    pub fn title(&mut self, value: Text) -> (r: &mut Self)
        ensures
            r.built() == apply_feed_setting(old(self).built(), FeedSetting::Title(value@)),
            *final(self) == *final(r),
    {
        self.value.title = value;
        self
    }

    /// Sets the id.
    pub fn id(&mut self, value: String) -> (r: &mut Self)
        ensures
            r.built() == apply_feed_setting(old(self).built(), FeedSetting::Id(value@)),
            *final(self) == *final(r),
    {
        self.value.id = value;
        self
    }

    /// Sets the time of the last significant change.
    pub fn updated(&mut self, value: FixedDateTime) -> (r: &mut Self)
        ensures
            r.built() == apply_feed_setting(old(self).built(), FeedSetting::Updated(value@)),
            *final(self) == *final(r),
    {
        self.value.updated = value;
        self
    }

    /// Sets the authors.
    pub fn authors(&mut self, value: Vec<Person>) -> (r: &mut Self)
        ensures
            r.built() == apply_feed_setting(old(self).built(), FeedSetting::Authors(person_views(value@))),
            *final(self) == *final(r),
    {
        self.value.authors = value;
        self
    }

    /// Appends one author.
    pub fn author(&mut self, item: Person) -> (r: &mut Self)
        ensures
            r.built() == apply_feed_setting(old(self).built(), FeedSetting::Author(item@)),
            *final(self) == *final(r),
    {
        let ghost before = person_views(self.value.authors@);
        self.value.authors.push(item);
        assert(person_views(self.value.authors@) =~= before.push(item@));
        self
    }

    /// Sets the categories.
    pub fn categories(&mut self, value: Vec<Category>) -> (r: &mut Self)
        ensures
            r.built() == apply_feed_setting(old(self).built(), FeedSetting::Categories(category_views(value@))),
            *final(self) == *final(r),
    {
        self.value.categories = value;
        self
    }

    /// Appends one category.
    pub fn category(&mut self, item: Category) -> (r: &mut Self)
        ensures
            r.built() == apply_feed_setting(old(self).built(), FeedSetting::Category(item@)),
            *final(self) == *final(r),
    {
        let ghost before = category_views(self.value.categories@);
        self.value.categories.push(item);
        assert(category_views(self.value.categories@) =~= before.push(item@));
        self
    }

    /// Sets the contributors.
    pub fn contributors(&mut self, value: Vec<Person>) -> (r: &mut Self)
        ensures
            r.built() == apply_feed_setting(old(self).built(), FeedSetting::Contributors(person_views(value@))),
            *final(self) == *final(r),
    {
        self.value.contributors = value;
        self
    }

    /// Appends one contributor.
    pub fn contributor(&mut self, item: Person) -> (r: &mut Self)
        ensures
            r.built() == apply_feed_setting(old(self).built(), FeedSetting::Contributor(item@)),
            *final(self) == *final(r),
    {
        let ghost before = person_views(self.value.contributors@);
        self.value.contributors.push(item);
        assert(person_views(self.value.contributors@) =~= before.push(item@));
        self
    }

    /// Sets the generator.
    pub fn generator(&mut self, value: Option<Generator>) -> (r: &mut Self)
        ensures
            r.built() == apply_feed_setting(old(self).built(), FeedSetting::Generator(opt_generator_view(value))),
            *final(self) == *final(r),
    {
        self.value.generator = value;
        self
    }

    /// Sets the icon.
    pub fn icon(&mut self, value: Option<String>) -> (r: &mut Self)
        ensures
            r.built() == apply_feed_setting(old(self).built(), FeedSetting::Icon(value.deep_view())),
            *final(self) == *final(r),
    {
        self.value.icon = value;
        self
    }

    /// Sets the links.
    pub fn links(&mut self, value: Vec<Link>) -> (r: &mut Self)
        ensures
            r.built() == apply_feed_setting(old(self).built(), FeedSetting::Links(link_views(value@))),
            *final(self) == *final(r),
    {
        self.value.links = value;
        self
    }

    /// Appends one link.
    pub fn link(&mut self, item: Link) -> (r: &mut Self)
        ensures
            r.built() == apply_feed_setting(old(self).built(), FeedSetting::Link(item@)),
            *final(self) == *final(r),
    {
        let ghost before = link_views(self.value.links@);
        self.value.links.push(item);
        assert(link_views(self.value.links@) =~= before.push(item@));
        self
    }

    /// Sets the logo.
    pub fn logo(&mut self, value: Option<String>) -> (r: &mut Self)
        ensures
            r.built() == apply_feed_setting(old(self).built(), FeedSetting::Logo(value.deep_view())),
            *final(self) == *final(r),
    {
        self.value.logo = value;
        self
    }

    /// Sets the rights.
    pub fn rights(&mut self, value: Option<Text>) -> (r: &mut Self)
        ensures
            r.built() == apply_feed_setting(old(self).built(), FeedSetting::Rights(opt_text_view(value))),
            *final(self) == *final(r),
    {
        self.value.rights = value;
        self
    }

    /// Sets the subtitle.
    pub fn subtitle(&mut self, value: Option<Text>) -> (r: &mut Self)
        ensures
            r.built() == apply_feed_setting(old(self).built(), FeedSetting::Subtitle(opt_text_view(value))),
            *final(self) == *final(r),
    {
        self.value.subtitle = value;
        self
    }

    /// Sets the entries.
    pub fn entries(&mut self, value: Vec<Entry>) -> (r: &mut Self)
        ensures
            r.built() == apply_feed_setting(old(self).built(), FeedSetting::Entries(entry_views(value@))),
            *final(self) == *final(r),
    {
        self.value.entries = value;
        self
    }

    /// Appends one entry.
    pub fn entry(&mut self, item: Entry) -> (r: &mut Self)
        ensures
            r.built() == apply_feed_setting(old(self).built(), FeedSetting::Entry(item@)),
            *final(self) == *final(r),
    {
        let ghost before = entry_views(self.value.entries@);
        self.value.entries.push(item);
        assert(entry_views(self.value.entries@) =~= before.push(item@));
        self
    }

    /// Sets the extensions.
    pub fn extensions(&mut self, value: Vec<Extension>) -> (r: &mut Self)
        ensures
            r.built() == apply_feed_setting(old(self).built(), FeedSetting::Extensions(extension_views(value@))),
            *final(self) == *final(r),
    {
        self.value.extensions = value;
        self
    }

    /// Appends one extension.
    pub fn extension(&mut self, item: Extension) -> (r: &mut Self)
        ensures
            r.built() == apply_feed_setting(old(self).built(), FeedSetting::Extension(item@)),
            *final(self) == *final(r),
    {
        let ghost before = extension_views(self.value.extensions@);
        self.value.extensions.push(item);
        assert(extension_views(self.value.extensions@) =~= before.push(item@));
        self
    }

    /// Sets the base URL.
    pub fn base(&mut self, value: Option<String>) -> (r: &mut Self)
        ensures
            r.built() == apply_feed_setting(old(self).built(), FeedSetting::Base(value.deep_view())),
            *final(self) == *final(r),
    {
        self.value.base = value;
        self
    }

    /// Sets the language.
    pub fn lang(&mut self, value: Option<String>) -> (r: &mut Self)
        ensures
            r.built() == apply_feed_setting(old(self).built(), FeedSetting::Lang(value.deep_view())),
            *final(self) == *final(r),
    {
        self.value.lang = value;
        self
    }

    /// Builds a new `Feed`.
    pub fn build(&self) -> (r: Feed)
        ensures
            r@ == self.built(),
    {
        self.value.clone()
    }
}

} // verus!
