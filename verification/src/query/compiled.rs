//! What a compiled query's captures mean, and the rules Neovim attaches to
//! its patterns.
use vstd::prelude::*;

use crate::query::metadata::{
    no_metadata, query_outcome, LuaPatternError, Metadata, MetadataView, PatternMetadata,
};
use crate::query::predicate::{
    all_failures, compiled_from, conditions, predicate_holds, GeneralPredicate, MatchFacts,
    Predicates,
};
use crate::text::{chars_of, str_eq};

verus! {

broadcast use vstd::seq_lib::group_seq_properties;

/// What a capture means when it is painted.
#[derive(Debug, Clone, PartialEq, Eq)]
pub enum CaptureRole {
    /// Not a highlight: a helper capture, or an editor-only concern such as
    /// spell checking. Leaves whatever is underneath alone.
    Ignored,
    /// `@none`: explicitly *no* highlight, clearing anything underneath.
    Cleared,
    /// A highlight group, e.g. `keyword.function`.
    Group(String),
}

/// Whether `name` starts with `prefix`.
pub open spec fn starts_with(name: Seq<char>, prefix: Seq<char>) -> bool {
    name.len() >= prefix.len() && name.take(prefix.len() as int) == prefix
}

/// Whether a capture exists to support a pattern rather than to colour
/// anything: `@spell` and `@nospell` drive Neovim's spell checker, `@conceal`
/// its concealing, `injection.` and `local.` captures feed other queries, and
/// a leading `_` is the query convention for a helper capture referenced only
/// by predicates.
pub open spec fn is_helper(name: Seq<char>) -> bool {
    starts_with(name, "_"@) || name == "spell"@ || name == "nospell"@ || name == "conceal"@ || name
        == "conceal_lines"@ || starts_with(name, "injection."@) || starts_with(name, "local."@)
}

/// Whether a role is the one a capture name has.
pub open spec fn role_of_name(role: CaptureRole, name: Seq<char>) -> bool {
    if is_helper(name) {
        role is Ignored
    } else if name == "none"@ {
        role is Cleared
    } else {
        role matches CaptureRole::Group(g) && g@ == name
    }
}

/// Whether `name` starts with `prefix`.
fn has_prefix(name: &[char], prefix: &str) -> (r: bool)
    ensures
        r == starts_with(name@, prefix@),
{
    let p = chars_of(prefix);
    if p.len() > name.len() {
        return false;
    }
    let mut i: usize = 0;
    while i < p.len()
        invariant
            i <= p@.len(),
            p@.len() <= name@.len(),
            p@ == prefix@,
            forall|k: int| 0 <= k < i ==> name@[k] == p@[k],
        decreases p@.len() - i,
    {
        if name[i] != p[i] {
            assert(name@.take(p@.len() as int)[i as int] != prefix@[i as int]);
            return false;
        }
        i += 1;
    }
    assert(name@.take(p@.len() as int) =~= prefix@);
    true
}

/// What a capture name means when painted.
pub fn role_of(capture: &str) -> (r: CaptureRole)
    ensures
        role_of_name(r, capture@),
{
    let name = chars_of(capture);
    if has_prefix(name.as_slice(), "_") || str_eq(capture, "spell") || str_eq(capture, "nospell")
        || str_eq(capture, "conceal") || str_eq(capture, "conceal_lines") || has_prefix(
        name.as_slice(),
        "injection.",
    ) || has_prefix(name.as_slice(), "local.") {
        return CaptureRole::Ignored;
    }
    if str_eq(capture, "none") {
        return CaptureRole::Cleared;
    }
    CaptureRole::Group(String::from_str(capture))
}

/// Everything Neovim attaches to a compiled query: what each capture means,
/// the conditions on each pattern, and each pattern's directives.
pub struct QueryRules {
    roles: Vec<CaptureRole>,
    predicates: Predicates,
    metadata: Metadata,
}

impl QueryRules {
    /// What each capture means, by index.
    pub closed spec fn roles(&self) -> Seq<CaptureRole> {
        self.roles@
    }

    /// The conditions on each pattern.
    pub closed spec fn conditions(&self) -> Predicates {
        self.predicates
    }

    /// The directives of each pattern.
    pub closed spec fn directives(&self) -> Metadata {
        self.metadata
    }

    /// The rules are in working order.
    pub closed spec fn wf(&self) -> bool {
        self.metadata.wf()
    }

    /// The rules of a query, from the names of its captures and the general
    /// predicates of each of its patterns.
    pub fn compile(capture_names: &[String], patterns: &[Vec<GeneralPredicate>]) -> (r: Result<
        QueryRules,
        LuaPatternError,
    >)
        requires
            query_outcome(patterns@) is Some,
        ensures
            match query_outcome(patterns@) {
                Some(Ok(list)) => r is Ok && r->Ok_0.wf() && r->Ok_0.directives().view_list() == list
                    && r->Ok_0.roles().len() == capture_names@.len() && (forall|k: int|
                    0 <= k < capture_names@.len() ==> role_of_name(
                        #[trigger] r->Ok_0.roles()[k],
                        capture_names@[k]@,
                    )) && r->Ok_0.conditions().pattern_list().len() == patterns@.len() && (forall|
                    i: int,
                |
                    0 <= i < patterns@.len() ==> #[trigger] r->Ok_0.conditions().pattern_list()[i].len()
                        == conditions(patterns@[i]@).len() && forall|j: int|
                        0 <= j < r->Ok_0.conditions().pattern_list()[i].len() ==> compiled_from(
                            r->Ok_0.conditions().pattern_list()[i][j],
                            conditions(patterns@[i]@)[j],
                        )) && r->Ok_0.conditions().unsupported_list() == all_failures(patterns@),
                _ => r is Err,
            },
    {
        let mut roles: Vec<CaptureRole> = Vec::new();
        let mut k: usize = 0;
        while k < capture_names.len()
            invariant
                k <= capture_names@.len(),
                roles@.len() == k,
                forall|j: int| 0 <= j < k ==> role_of_name(#[trigger] roles@[j], capture_names@[j]@),
            decreases capture_names@.len() - k,
        {
            roles.push(role_of(capture_names[k].as_str()));
            k += 1;
        }
        let predicates = Predicates::compile(patterns);
        let metadata = Metadata::compile(patterns)?;
        Ok(QueryRules { roles, predicates, metadata })
    }

    /// What a capture index means when painted; an index the query does not
    /// have is ignored.
    pub fn role(&self, capture: u32) -> (r: &CaptureRole)
        ensures
            *r == if (capture as int) < self.roles().len() {
                self.roles()[capture as int]
            } else {
                CaptureRole::Ignored
            },
    {
        if (capture as usize) < self.roles.len() {
            &self.roles[capture as usize]
        } else {
            &CaptureRole::Ignored
        }
    }

    /// Whether every condition on this match's pattern holds.
    pub fn accepts(&self, matched: &MatchFacts, source: &[u8]) -> (r: bool)
        ensures
            r == (matched.pattern_index >= self.conditions().pattern_list().len() || forall|j: int|
                0 <= j < self.conditions().pattern_list()[matched.pattern_index as int].len()
                    ==> predicate_holds(
                    #[trigger] self.conditions().pattern_list()[matched.pattern_index as int][j],
                    *matched,
                    source@,
                )),
    {
        let r = self.predicates.accepts(matched, source);
        assert(self.conditions().pattern_list() == self.predicates.pattern_list());
        r
    }

    /// The directives attached to a pattern.
    pub fn pattern(&self, index: usize) -> (r: &PatternMetadata)
        requires
            self.wf(),
        ensures
            r.wf(),
            r.view_of() == if index < self.directives().view_list().len() {
                self.directives().view_list()[index as int]
            } else {
                no_metadata()
            },
    {
        self.metadata.pattern(index)
    }

    /// Predicates in this query that could not be compiled, and so never hold.
    pub fn unsupported_predicates(&self) -> (r: &[String])
        ensures
            crate::query::predicate::texts(r@) == self.conditions().unsupported_list(),
    {
        self.predicates.unsupported()
    }
}

} // verus!
