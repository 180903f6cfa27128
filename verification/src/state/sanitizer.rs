//! The HTML sanitizer through which every client text passes before it is
//! stored.

use vstd::prelude::*;

verus! {

/// `ammonia::Builder`: the settings of a sanitizer. Nothing inside it is
/// visible.
#[verifier::external_type_specification]
#[verifier::external_body]
pub struct ExBuilder<'a>(ammonia::Builder<'a>);

/// The text that the forum's sanitizer makes of `html`: what `ammonia` keeps of
/// it under its default settings with the `style` attribute allowed on every
/// tag.
pub uninterp spec fn sanitized(html: Seq<char>) -> Seq<char>;

/// The attributes that a builder's settings allow on every tag: what
/// `ammonia::Builder::clone_generic_attributes` gives for it.
pub uninterp spec fn generic_attributes(builder: ammonia::Builder<'static>) -> Set<Seq<char>>;

/// The attributes that `ammonia` allows on every tag by default.
pub open spec fn default_attributes() -> Set<Seq<char>> {
    set!["lang"@, "title"@]
}

/// The attributes that the forum's sanitizer allows on every tag: those
/// that `ammonia` allows by default, and `style`.
pub open spec fn forum_attributes() -> Set<Seq<char>> {
    default_attributes().insert("style"@)
}

/// `ammonia::Builder::new`: the default settings, under which `lang` and
/// `title` are the attributes allowed on every tag.
#[verifier::external_body]
fn default_builder() -> (r: ammonia::Builder<'static>)
    ensures
        generic_attributes(r) == default_attributes(),
{
    ammonia::Builder::new()
}

/// `ammonia::Builder::add_generic_attributes` with one attribute: the
/// settings allow that attribute on every tag in addition.
#[verifier::external_body]
fn allow_on_every_tag(builder: &mut ammonia::Builder<'static>, attribute: &'static str)
    ensures
        generic_attributes(*final(builder)) == generic_attributes(*old(builder)).insert(attribute@),
{
    builder.add_generic_attributes([attribute]);
}

/// `ammonia::Builder::clean` and `Document::to_string`, on a builder with the
/// forum's settings: the sanitized text, which depends on the input alone.
/// With those settings the call does not panic.
#[verifier::external_body]
fn builder_clean(builder: &ammonia::Builder<'static>, html: &str) -> (r: String)
    requires
        generic_attributes(*builder) == forum_attributes(),
    ensures
        r@ == sanitized(html@),
{
    builder.clean(html).to_string()
}

/// The forum's sanitizer. Its settings are fixed when it is made.
pub struct Sanitizer {
    builder: ammonia::Builder<'static>,
}

impl Sanitizer {
    /// Every sanitizer has the forum's settings.
    #[verifier::type_invariant]
    spec fn has_forum_settings(self) -> bool {
        generic_attributes(self.builder) == forum_attributes()
    }

    /// The attributes that the sanitizer allows on every tag.
    pub closed spec fn allowed_on_every_tag(&self) -> Set<Seq<char>> {
        generic_attributes(self.builder)
    }

    /// The sanitizer with the forum's settings: the defaults, with the `style`
    /// attribute allowed on every tag.
    pub fn new() -> (r: Self)
        ensures
            r.allowed_on_every_tag() == forum_attributes(),
    {
        let mut builder = default_builder();
        allow_on_every_tag(&mut builder, "style");
        Self { builder }
    }

    /// The sanitized form of `html`.
    pub fn clean(&self, html: &str) -> (r: String)
        ensures
            r@ == sanitized(html@),
    {
        proof {
            use_type_invariant(self);
        }
        builder_clean(&self.builder, html)
    }
}

} // verus!
