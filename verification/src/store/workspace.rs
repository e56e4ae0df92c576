//! Which languages' queries a language needs.
use vstd::prelude::*;

use crate::driver::pipeline::{ascending, insert_sorted};
use crate::registry::lookup::{position_of, Registry};
use crate::renderer::scan::filter::texts;

verus! {

broadcast use vstd::seq_lib::group_seq_properties;

/// The languages whose queries the registry says `name`'s queries inherit.
pub open spec fn requirements(registry: Registry, name: Seq<char>) -> Seq<Seq<char>> {
    match position_of(registry.languages(), name, 0) {
        Some(k) => texts(registry.languages()[k].requires@),
        None => seq![],
    }
}

/// Whether a set of language ids holds, for each of them, every language its
/// queries inherit.
pub open spec fn closed_under_requires(registry: Registry, names: Set<Seq<char>>) -> bool {
    forall|x: Seq<char>, k: int|
        names.contains(x) && 0 <= k < requirements(registry, x).len() ==> names.contains(
            #[trigger] requirements(registry, x)[k],
        )
}

/// Every language any entry of the table requires, in order.
pub open spec fn every_requirement(registry: Registry, n: int) -> Seq<Seq<char>>
    decreases n,
{
    if n <= 0 || n > registry.languages().len() {
        seq![]
    } else {
        every_requirement(registry, n - 1) + texts(registry.languages()[n - 1].requires@)
    }
}

proof fn lemma_every_requirement(registry: Registry, n: int, k: int, j: int)
    requires
        0 <= k < n <= registry.languages().len(),
        0 <= j < registry.languages()[k].requires@.len(),
    ensures
        every_requirement(registry, n).contains(registry.languages()[k].requires@[j]@),
    decreases n,
{
    let e = every_requirement(registry, n);
    if k == n - 1 {
        let prev = every_requirement(registry, n - 1);
        assert(e[prev.len() + j] == registry.languages()[k].requires@[j]@);
    } else {
        lemma_every_requirement(registry, n - 1, k, j);
        let prev = every_requirement(registry, n - 1);
        let i = choose|i: int| 0 <= i < prev.len() && prev[i] == registry.languages()[k].requires@[j]@;
        assert(e[i] == prev[i]);
    }
}

/// A requirement of a language in the table is among every requirement.
proof fn lemma_requirement_listed(registry: Registry, name: Seq<char>, k: int)
    requires
        0 <= k < requirements(registry, name).len(),
    ensures
        every_requirement(registry, registry.languages().len() as int).contains(
            requirements(registry, name)[k],
        ),
{
    crate::registry::lookup::lemma_position_of(registry.languages(), name, 0);
    let p = position_of(registry.languages(), name, 0)->0;
    lemma_every_requirement(registry, registry.languages().len() as int, p, k);
}

/// Entry `m` of `found` is requirement `parent[m].1` of entry `parent[m].0`,
/// an earlier one.
pub open spec fn derived(
    registry: Registry,
    found: Seq<Seq<char>>,
    parent: Seq<(int, int)>,
    m: int,
) -> bool {
    let (j, k) = parent[m];
    &&& 0 <= j < m
    &&& 0 <= k < requirements(registry, found[j]).len()
    &&& found[m] == requirements(registry, found[j])[k]
}

/// What the search keeps of the languages it has found so far: the first is
/// `language`, none occurs twice, each is `language` or some language's
/// requirement, and each after the first is required by an earlier one.
pub open spec fn search_state(
    registry: Registry,
    language: Seq<char>,
    universe: Seq<Seq<char>>,
    found: Seq<Seq<char>>,
    parent: Seq<(int, int)>,
) -> bool {
    &&& found.len() >= 1
    &&& found[0] == language
    &&& found.no_duplicates()
    &&& parent.len() == found.len()
    &&& forall|m: int| 0 <= m < found.len() ==> universe.contains(#[trigger] found[m])
    &&& forall|m: int| 0 < m < found.len() ==> #[trigger] derived(registry, found, parent, m)
}

/// Every requirement of the first `p` languages found has been found too.
pub open spec fn expanded(registry: Registry, found: Seq<Seq<char>>, p: int) -> bool {
    forall|j: int, k: int|
        0 <= j < p && 0 <= k < requirements(registry, found[j]).len() ==> found.contains(
            #[trigger] requirements(registry, found[j])[k],
        )
}

/// Each language found after the first is required by one found before it,
/// so every closed set holding the first holds them all.
proof fn lemma_least(
    registry: Registry,
    found: Seq<Seq<char>>,
    parent: Seq<(int, int)>,
    names: Set<Seq<char>>,
    i: int,
)
    requires
        0 <= i < found.len(),
        names.contains(found[0]),
        closed_under_requires(registry, names),
        forall|m: int| 0 < m < found.len() ==> #[trigger] derived(registry, found, parent, m),
    ensures
        names.contains(found[i]),
    decreases i,
{
    if i > 0 {
        assert(derived(registry, found, parent, i));
        let (j, k) = parent[i];
        lemma_least(registry, found, parent, names, j);
        assert(names.contains(requirements(registry, found[j])[k]));
    }
}

/// The search never finds more languages than there are candidates.
proof fn lemma_bounded(found: Seq<Seq<char>>, universe: Seq<Seq<char>>)
    requires
        found.no_duplicates(),
        forall|m: int| 0 <= m < found.len() ==> universe.contains(#[trigger] found[m]),
    ensures
        found.len() <= universe.len(),
{
    found.unique_seq_to_set();
    universe.lemma_cardinality_of_set();
    assert(found.to_set().subset_of(universe.to_set()));
    vstd::set_lib::lemma_len_subset(found.to_set(), universe.to_set());
}

/// Adding a requirement of an expanded language that was not found yet keeps
/// the search's state, and forgets nothing already found.
proof fn lemma_add(
    registry: Registry,
    language: Seq<char>,
    universe: Seq<Seq<char>>,
    found: Seq<Seq<char>>,
    parent: Seq<(int, int)>,
    p: int,
    k: int,
)
    requires
        search_state(registry, language, universe, found, parent),
        expanded(registry, found, p),
        0 <= p < found.len(),
        0 <= k < requirements(registry, found[p]).len(),
        !found.contains(requirements(registry, found[p])[k]),
        universe.contains(requirements(registry, found[p])[k]),
    ensures
        ({
            let x = requirements(registry, found[p])[k];
            &&& search_state(registry, language, universe, found.push(x), parent.push((p, k)))
            &&& expanded(registry, found.push(x), p)
            &&& forall|y: Seq<char>| found.contains(y) ==> #[trigger] found.push(x).contains(y)
        }),
{
    let x = requirements(registry, found[p])[k];
    let f2 = found.push(x);
    let p2 = parent.push((p, k));
    assert forall|y: Seq<char>| found.contains(y) implies #[trigger] f2.contains(y) by {
        let i = choose|i: int| 0 <= i < found.len() && found[i] == y;
        assert(f2[i] == y);
    }
    assert forall|m: int| 0 < m < f2.len() implies #[trigger] derived(registry, f2, p2, m) by {
        if m < found.len() {
            assert(derived(registry, found, parent, m));
        }
    }
    assert forall|m: int| 0 <= m < f2.len() implies universe.contains(#[trigger] f2[m]) by {
        if m < found.len() {
            assert(universe.contains(found[m]));
        }
    }
    assert forall|j: int, kk: int|
        0 <= j < p && 0 <= kk < requirements(registry, f2[j]).len() implies f2.contains(
            #[trigger] requirements(registry, f2[j])[kk],
        ) by {
        assert(f2[j] == found[j]);
        assert(found.contains(requirements(registry, found[j])[kk]));
    }
    assert(f2.no_duplicates()) by {
        assert forall|a: int, b: int| 0 <= a < f2.len() && 0 <= b < f2.len() && a != b implies f2[a]
            != f2[b] by {
            if a == found.len() as int {
                assert(f2[b] == found[b]);
                assert(found.contains(found[b]));
            } else if b == found.len() as int {
                assert(f2[a] == found[a]);
                assert(found.contains(found[a]));
            }
        }
    }
}

/// Whether `names` holds `name`.
pub(crate) fn listed(names: &Vec<String>, name: &str) -> (r: bool)
    ensures
        r == texts(names@).contains(name@),
{
    let mut k: usize = 0;
    while k < names.len()
        invariant
            k <= names@.len(),
            forall|j: int| 0 <= j < k ==> #[trigger] names@[j]@ != name@,
        decreases names@.len() - k,
    {
        if crate::text::str_eq(names[k].as_str(), name) {
            assert(texts(names@)[k as int] == name@);
            return true;
        }
        k += 1;
    }
    assert(!texts(names@).contains(name@)) by {
        if texts(names@).contains(name@) {
            let j = choose|j: int| 0 <= j < texts(names@).len() && texts(names@)[j] == name@;
            assert(names@[j]@ == name@);
        }
    }
    false
}

/// A language and every language its queries inherit from, transitively:
/// the least set holding the language that holds, with each language, every
/// language the registry says it requires. Nothing for a language the
/// registry does not have. Each language is listed once, and the list is
/// in ascending order of name.
///
/// `cpp/highlights.scm` starts with `; inherits: c`, and nvim-treesitter
/// records that as `requires`, so C's query files have to be installed
/// alongside C++'s even though C's *parser* is never needed for them.
pub fn query_dependencies(registry: &Registry, language: &str) -> (r: Vec<String>)
    ensures
        texts(r@).no_duplicates(),
        ascending(texts(r@)),
        position_of(registry.languages(), language@, 0) is None ==> r@.len() == 0,
        position_of(registry.languages(), language@, 0) is Some ==> {
            &&& texts(r@).contains(language@)
            &&& closed_under_requires(*registry, texts(r@).to_set())
            &&& forall|names: Set<Seq<char>>|
                names.contains(language@) && closed_under_requires(*registry, names) ==> texts(
                    r@,
                ).to_set().subset_of(names)
        },
{
    let first = match registry.get_language(language) {
        Some(info) => String::from_str(info.name.as_str()),
        None => {
            return Vec::new();
        },
    };
    proof {
        crate::registry::lookup::lemma_position_of(registry.languages(), language@, 0);
    }
    let ghost universe = seq![language@] + every_requirement(
        *registry,
        registry.languages().len() as int,
    );
    let mut found: Vec<String> = Vec::new();
    found.push(first);
    let ghost mut parent: Seq<(int, int)> = seq![(0int, 0int)];
    proof {
        assert(universe[0] == language@);
        assert(texts(found@) =~= seq![language@]);
    }
    let mut p: usize = 0;
    while p < found.len()
        invariant
            p <= found@.len(),
            search_state(*registry, language@, universe, texts(found@), parent),
            expanded(*registry, texts(found@), p as int),
            universe == seq![language@] + every_requirement(
                *registry,
                registry.languages().len() as int,
            ),
        decreases universe.len() - found@.len(), found@.len() - p,
    {
        let ghost before = texts(found@);
        if let Some(info) = registry.get_language(found[p].as_str()) {
            assert(texts(info.requires@) == requirements(*registry, before[p as int]));
            let mut k: usize = 0;
            while k < info.requires.len()
                invariant
                    k <= info.requires@.len(),
                    p < before.len() <= found@.len(),
                    forall|m: int| 0 <= m < before.len() ==> texts(found@)[m] == before[m],
                    texts(info.requires@) == requirements(*registry, before[p as int]),
                    search_state(*registry, language@, universe, texts(found@), parent),
                    expanded(*registry, texts(found@), p as int),
                    forall|j: int|
                        0 <= j < k ==> texts(found@).contains(#[trigger] texts(info.requires@)[j]),
                    universe == seq![language@] + every_requirement(
                        *registry,
                        registry.languages().len() as int,
                    ),
                decreases info.requires@.len() - k,
            {
                if !listed(&found, info.requires[k].as_str()) {
                    let ghost old_found = texts(found@);
                    proof {
                        assert(old_found[p as int] == before[p as int]);
                        lemma_requirement_listed(*registry, before[p as int], k as int);
                        let e = every_requirement(*registry, registry.languages().len() as int);
                        let i = choose|i: int|
                            0 <= i < e.len() && e[i] == texts(info.requires@)[k as int];
                        assert(universe[i + 1] == e[i]);
                        lemma_add(
                            *registry,
                            language@,
                            universe,
                            old_found,
                            parent,
                            p as int,
                            k as int,
                        );
                        parent = parent.push((p as int, k as int));
                    }
                    found.push(String::from_str(info.requires[k].as_str()));
                    assert(texts(found@) =~= old_found.push(info.requires@[k as int]@));
                    assert(texts(found@).contains(texts(info.requires@)[k as int])) by {
                        assert(texts(found@)[old_found.len() as int] == texts(info.requires@)[k as int]);
                    }
                }
                k += 1;
            }
            proof {
                let f = texts(found@);
                assert forall|kk: int|
                    0 <= kk < requirements(*registry, f[p as int]).len() implies f.contains(
                        #[trigger] requirements(*registry, f[p as int])[kk],
                    ) by {
                    assert(f[p as int] == before[p as int]);
                    assert(f.contains(texts(info.requires@)[kk]));
                }
                assert(expanded(*registry, f, p + 1));
            }
        } else {
            proof {
                assert(requirements(*registry, before[p as int]).len() == 0);
            }
        }
        proof {
            lemma_bounded(texts(found@), universe);
        }
        p += 1;
    }
    proof {
        let names_found = texts(found@);
        assert forall|x: Seq<char>, k: int|
            names_found.to_set().contains(x) && 0 <= k < requirements(*registry, x).len() implies names_found.to_set().contains(
                #[trigger] requirements(*registry, x)[k],
            ) by {
            let j = choose|j: int| 0 <= j < names_found.len() && names_found[j] == x;
            assert(names_found.contains(requirements(*registry, names_found[j])[k]));
        }
        assert forall|names: Set<Seq<char>>|
            names.contains(language@) && closed_under_requires(*registry, names) implies names_found.to_set().subset_of(
                names,
            ) by {
            assert forall|x: Seq<char>| names_found.to_set().contains(x) implies names.contains(x) by {
                let j = choose|j: int| 0 <= j < names_found.len() && names_found[j] == x;
                lemma_least(*registry, names_found, parent, names, j);
            }
        }
        assert(names_found[0] == language@);
    }
    let ghost all = texts(found@);
    let mut sorted: Vec<String> = Vec::new();
    let mut i: usize = 0;
    assert(texts(sorted@) =~= Seq::<Seq<char>>::empty());
    assert(all.take(0).to_set() =~= Set::<Seq<char>>::empty());
    while i < found.len()
        invariant
            i <= found@.len(),
            all == texts(found@),
            texts(sorted@).no_duplicates(),
            ascending(texts(sorted@)),
            texts(sorted@).to_set() == all.take(i as int).to_set(),
        decreases found@.len() - i,
    {
        insert_sorted(&mut sorted, found[i].as_str());
        assert(all.take(i + 1) =~= all.take(i as int).push(all[i as int]));
        assert(all.take(i + 1).to_set() =~= all.take(i as int).to_set().insert(all[i as int]));
        i += 1;
    }
    assert(all.take(found@.len() as int) =~= all);
    proof {
        let names_sorted = texts(sorted@);
        assert(names_sorted.to_set() == all.to_set());
        assert(all.to_set().contains(language@)) by {
            assert(all[0] == language@);
        }
        assert(names_sorted.contains(language@)) by {
            assert(names_sorted.to_set().contains(language@));
        }
    }
    sorted
}

} // verus!
