//! Deciding which languages a book highlights.
use vstd::prelude::*;

use crate::registry::lookup::{resolved, Registry};
use crate::text::str_eq;

verus! {

broadcast use vstd::seq_lib::group_seq_properties;

/// The settings from `book.toml` that list the languages to keep and the
/// languages to leave alone, resolved to canonical language ids.
///
/// This governs *code blocks* only. A language pulled in by an injection --
/// the JavaScript inside an HTML block, say -- is always highlighted, because
/// excluding it would leave the surrounding block half-rendered.
#[derive(Debug)]
pub struct Filter {
    /// When set, only these languages are highlighted.
    only: Option<Vec<String>>,
    exclude: Vec<String>,
}

/// Strings as plain values.
pub open spec fn texts(v: Seq<String>) -> Seq<Seq<char>> {
    v.map_values(|s: String| s@)
}

/// The language ids the tags resolve to, in order, skipping those that
/// resolve to nothing.
pub open spec fn resolved_names(registry: Registry, tags: Seq<String>) -> Seq<Seq<char>>
    decreases tags.len(),
{
    if tags.len() == 0 {
        seq![]
    } else {
        let rest = resolved_names(registry, tags.drop_last());
        match resolved(registry.languages(), registry.filetype_aliases(), tags.last()@) {
            Some(k) => rest.push(registry.languages()[k].name@),
            None => rest,
        }
    }
}

/// The tags that resolve to no language, in order.
pub open spec fn unknown_tags(registry: Registry, tags: Seq<String>) -> Seq<Seq<char>>
    decreases tags.len(),
{
    if tags.len() == 0 {
        seq![]
    } else {
        let rest = unknown_tags(registry, tags.drop_last());
        match resolved(registry.languages(), registry.filetype_aliases(), tags.last()@) {
            Some(k) => rest,
            None => rest.push(tags.last()@),
        }
    }
}

/// Whether a language passes the lists: it is not excluded, and it is on the
/// list of languages to keep when there is one.
pub open spec fn passes(
    only: Option<Seq<Seq<char>>>,
    exclude: Seq<Seq<char>>,
    language: Seq<char>,
) -> bool {
    !exclude.contains(language) && match only {
        None => true,
        Some(names) => names.contains(language),
    }
}

/// An excluded language is never highlighted, whatever the list of languages
/// to keep says: exclusion wins over inclusion.
pub proof fn lemma_exclude_wins(only: Option<Seq<Seq<char>>>, exclude: Seq<Seq<char>>, language: Seq<char>)
    requires
        exclude.contains(language),
    ensures
        !passes(only, exclude, language),
{
}

/// Resolve `tags` into `names`, recording the unresolved ones in `unknown`.
fn resolve_into(
    registry: &Registry,
    tags: &[String],
    names: &mut Vec<String>,
    unknown: &mut Vec<String>,
)
    ensures
        texts(final(names)@) == texts(old(names)@) + resolved_names(*registry, tags@),
        texts(final(unknown)@) == texts(old(unknown)@) + unknown_tags(*registry, tags@),
{
    let ghost names0 = texts(names@);
    let ghost unknown0 = texts(unknown@);
    let mut i: usize = 0;
    while i < tags.len()
        invariant
            i <= tags@.len(),
            texts(names@) == names0 + resolved_names(*registry, tags@.take(i as int)),
            texts(unknown@) == unknown0 + unknown_tags(*registry, tags@.take(i as int)),
        decreases tags@.len() - i,
    {
        assert(tags@.take(i + 1).drop_last() =~= tags@.take(i as int));
        assert(tags@.take(i + 1).last() == tags@[i as int]);
        let ghost names_before = names@;
        let ghost unknown_before = unknown@;
        match registry.resolve_language(tags[i].as_str()) {
            Some(language) => {
                names.push(String::from_str(language.name.as_str()));
                assert(texts(names@) =~= texts(names_before).push(language.name@));
                assert(unknown@ == unknown_before);
            },
            None => {
                unknown.push(String::from_str(tags[i].as_str()));
                assert(texts(unknown@) =~= texts(unknown_before).push(tags@[i as int]@));
                assert(names@ == names_before);
            },
        }
        assert(texts(names@) =~= names0 + resolved_names(*registry, tags@.take(i + 1)));
        assert(texts(unknown@) =~= unknown0 + unknown_tags(*registry, tags@.take(i + 1)));
        i += 1;
    }
    assert(tags@.take(tags@.len() as int) =~= tags@);
}

/// Whether `names` holds `language`.
fn holds(names: &Vec<String>, language: &str) -> (r: bool)
    ensures
        r == texts(names@).contains(language@),
{
    let mut i: usize = 0;
    while i < names.len()
        invariant
            i <= names@.len(),
            forall|k: int| 0 <= k < i ==> names@[k]@ != language@,
        decreases names@.len() - i,
    {
        if str_eq(names[i].as_str(), language) {
            assert(texts(names@)[i as int] == language@);
            return true;
        }
        i += 1;
    }
    assert(!texts(names@).contains(language@)) by {
        if texts(names@).contains(language@) {
            let k = choose|k: int| 0 <= k < texts(names@).len() && texts(names@)[k] == language@;
            assert(names@[k]@ == language@);
        }
    }
    false
}

impl Filter {
    /// The languages highlighted, when the list is restricted.
    pub closed spec fn only_names(&self) -> Option<Seq<Seq<char>>> {
        match self.only {
            Some(names) => Some(texts(names@)),
            None => None,
        }
    }

    /// The languages never highlighted.
    pub closed spec fn exclude_names(&self) -> Seq<Seq<char>> {
        texts(self.exclude@)
    }

    /// Build a filter from configured tags.
    ///
    /// Tags are resolved the same way a fence tag is, so `exclude = ["sh"]`
    /// excludes bash. Tags that name no known language are returned as
    /// warnings rather than ignored, since a typo would otherwise silently do
    /// nothing: the unknown excluded tags first, then the unknown kept ones.
    pub fn new(registry: &Registry, only: &[String], exclude: &[String]) -> (r: (Self, Vec<String>))
        ensures
            r.0.exclude_names() == resolved_names(*registry, exclude@),
            r.0.only_names() == if only@.len() == 0 {
                None
            } else {
                Some(resolved_names(*registry, only@))
            },
            texts(r.1@) == unknown_tags(*registry, exclude@) + if only@.len() == 0 {
                Seq::<Seq<char>>::empty()
            } else {
                unknown_tags(*registry, only@)
            },
    {
        let mut unknown: Vec<String> = Vec::new();
        let mut excluded: Vec<String> = Vec::new();
        resolve_into(registry, exclude, &mut excluded, &mut unknown);
        let ghost after_exclude = texts(unknown@);
        let kept = if only.len() == 0 {
            None
        } else {
            let mut names: Vec<String> = Vec::new();
            resolve_into(registry, only, &mut names, &mut unknown);
            Some(names)
        };
        assert(texts(excluded@) =~= resolved_names(*registry, exclude@));
        (Filter { only: kept, exclude: excluded }, unknown)
    }

    /// Whether code tagged with this language should be highlighted.
    pub fn allows(&self, language: &str) -> (r: bool)
        ensures
            r == passes(self.only_names(), self.exclude_names(), language@),
    {
        if holds(&self.exclude, language) {
            return false;
        }
        match &self.only {
            None => true,
            Some(names) => holds(names, language),
        }
    }
}

impl Default for Filter {
    /// A filter that lets every language through.
    fn default() -> (r: Self)
        ensures
            r.only_names() is None,
            r.exclude_names() == Seq::<Seq<char>>::empty(),
    {
        let exclude: Vec<String> = Vec::new();
        assert(texts(exclude@) =~= seq![]);
        Filter { only: None, exclude }
    }
}

} // verus!
