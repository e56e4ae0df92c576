//! The conditional predicates tree-sitter does not evaluate itself.
//!
//! tree-sitter handles `#eq?`, `#any-of?` and (once the query source has moved
//! Vim's regexes out of the way) nothing else that Neovim's queries use.
//! Everything left over arrives as a "general predicate", which tree-sitter
//! parses but never checks -- and an unchecked predicate is not a no-op, it
//! makes its pattern fire *unconditionally*. A rule meant for `SCREAMING_CASE`
//! identifiers would then colour every identifier as a constant, so each of
//! these has to be evaluated here.
//!
//! Names follow Neovim's scheme: a base predicate `foo?` also exists as
//! `not-foo?` (negated), `any-foo?` (satisfied by one node of a multi-node
//! capture) and `any-not-foo?`.
use vstd::prelude::*;
use vstd::string::StringSliceAdditionalSpecFns;
use vstd::utf8::*;

use crate::highlight::injection::Range;
use crate::query::lua_pattern;
use crate::query::regex_engine::{regex_accepts, regex_is_match, CompiledRegex};
use crate::query::vim_regex;
use crate::text::{
    bytes_at, char_start, decimal, decimal_text, lemma_after_ascii, lemma_char_start_is_boundary,
    lemma_str_valid, str_eq, str_get,
};

verus! {

broadcast use vstd::seq_lib::group_seq_properties;

/// An argument of a query predicate: a capture, by index, or a string.
#[derive(Debug)]
pub enum PredicateArg {
    Capture(u32),
    String(String),
}

/// A general predicate as a query lists it: its operator and its arguments.
#[derive(Debug)]
pub struct GeneralPredicate {
    pub operator: String,
    pub args: Vec<PredicateArg>,
}

/// What a predicate tests of a captured node.
#[derive(Debug)]
pub enum Test {
    /// The capture's text matches a Lua pattern.
    LuaMatch(CompiledRegex),
    /// The capture's text matches a Vim regex.
    VimMatch(CompiledRegex),
    /// The capture's text contains one of these substrings.
    Contains(Vec<String>),
    /// The captured node's type is one of these.
    Kind(Vec<String>),
    /// Some ancestor of the captured node has one of these types.
    Ancestor(Vec<String>),
    /// The captured node's immediate parent has one of these types.
    Parent(Vec<String>),
    /// A predicate that could not be compiled. It never holds, so a pattern
    /// relying on it under-highlights rather than highlighting everything.
    Unsupported,
}

/// One compiled predicate of a pattern.
#[derive(Debug)]
pub struct Predicate {
    /// The capture it tests.
    pub capture: u32,
    /// What it tests.
    pub test: Test,
    /// False for the `not-` spellings.
    pub positive: bool,
    /// True for the `any-` spellings: one node is enough.
    pub any: bool,
}

/// What is read of one captured node: its extent in the source, its type,
/// the types of its ancestors from the parent out, and the extents of its
/// named children in order.
#[derive(Debug)]
pub struct NodeFacts {
    pub range: Range,
    pub kind: String,
    pub ancestors: Vec<String>,
    pub children: Vec<Range>,
}

/// One match of a query: its pattern, and each captured node with the index
/// of the capture it was captured by, in order.
#[derive(Debug)]
pub struct MatchFacts {
    pub pattern_index: usize,
    pub captures: Vec<(u32, NodeFacts)>,
}

/// Strings as plain values.
pub open spec fn texts(v: Seq<String>) -> Seq<Seq<char>> {
    v.map_values(|s: String| s@)
}

/// The base name of a predicate operator, whether it is positive, and whether
/// it is an `any-` form: a trailing `?` is dropped, then a leading `any-`,
/// then a leading `not-`.
pub open spec fn split_spec(op: Seq<u8>) -> (Seq<u8>, bool, bool) {
    let b = if op.len() > 0 && op.last() == 0x3f {
        op.drop_last()
    } else {
        op
    };
    let any = b.len() >= 4 && b.take(4) == "any-".spec_bytes();
    let b = if any {
        b.skip(4)
    } else {
        b
    };
    let not = b.len() >= 4 && b.take(4) == "not-".spec_bytes();
    (
        if not {
            b.skip(4)
        } else {
            b
        },
        !not,
        any,
    )
}

/// The strings among `args`, when every one is a string.
pub open spec fn strings_spec(args: Seq<PredicateArg>) -> Option<Seq<Seq<char>>>
    decreases args.len(),
{
    if args.len() == 0 {
        Some(seq![])
    } else {
        match (strings_spec(args.drop_last()), args.last()) {
            (Some(v), PredicateArg::String(s)) => Some(v.push(s@)),
            _ => None,
        }
    }
}

/// The message when a predicate is given a capture where a string belongs.
pub open spec fn not_strings_text(op: Seq<char>) -> Seq<char> {
    "#"@ + op + " takes string arguments, got a capture"@
}

/// The one string among `args`, or why there is not exactly one.
pub open spec fn single_spec(op: Seq<char>, args: Seq<PredicateArg>) -> Result<Seq<char>, Seq<char>> {
    match strings_spec(args) {
        None => Err(not_strings_text(op)),
        Some(v) => if v.len() == 1 {
            Ok(v[0])
        } else {
            Err("#"@ + op + " takes one string argument, got "@ + decimal_text(v.len()))
        },
    }
}

/// Whether a Lua pattern compiles.
pub open spec fn lua_compiles(pattern: Seq<char>) -> bool {
    lua_pattern::translate_spec(encode_utf8(pattern)) matches Ok(source) && regex_accepts(
        source,
        false,
        true,
    )
}

/// Why a Lua pattern does not compile.
pub open spec fn lua_failure(pattern: Seq<char>) -> Seq<char> {
    match lua_pattern::translate_spec(encode_utf8(pattern)) {
        Err(e) => lua_pattern::lua_error_text(e),
        Ok(_) => "lua pattern became an invalid regex"@,
    }
}

/// Whether a Vim regex compiles.
pub open spec fn vim_compiles(pattern: Seq<char>) -> bool {
    vim_regex::translate_spec(encode_utf8(pattern)) matches Ok((source, ci)) && regex_accepts(
        source,
        ci,
        false,
    )
}

/// Why a Vim regex does not compile.
pub open spec fn vim_failure(pattern: Seq<char>) -> Seq<char> {
    match vim_regex::translate_spec(encode_utf8(pattern)) {
        Err(e) => vim_regex::vim_error_text(e),
        Ok(_) => "vim regex became an invalid regex"@,
    }
}

/// Whether the base name is one of those that take a list of strings.
pub open spec fn is_list_test(base: Seq<u8>) -> bool {
    base == "contains".spec_bytes() || base == "kind-eq".spec_bytes() || base
        == "has-ancestor".spec_bytes() || base == "has-parent".spec_bytes()
}

/// Whether a predicate compiles, and if not, the message saying why.
pub open spec fn compile_outcome(op: Seq<char>, args: Seq<PredicateArg>) -> Result<(), Seq<char>> {
    let base = split_spec(encode_utf8(op)).0;
    if !(args.len() > 0 && args[0] is Capture) {
        Err("#"@ + op + " does not start with a capture"@)
    } else if base == "lua-match".spec_bytes() {
        match single_spec(op, args.skip(1)) {
            Err(m) => Err(m),
            Ok(pattern) => if lua_compiles(pattern) {
                Ok(())
            } else {
                Err("#"@ + op + ": "@ + lua_failure(pattern))
            },
        }
    } else if base == "vim-match".spec_bytes() {
        match single_spec(op, args.skip(1)) {
            Err(m) => Err(m),
            Ok(pattern) => if vim_compiles(pattern) {
                Ok(())
            } else {
                Err("#"@ + op + ": "@ + vim_failure(pattern))
            },
        }
    } else if is_list_test(base) {
        match strings_spec(args.skip(1)) {
            None => Err(not_strings_text(op)),
            Some(_) => Ok(()),
        }
    } else {
        Err("#"@ + op + " is not a predicate we know"@)
    }
}

/// Whether `p` is the predicate an operator and its arguments compile to.
pub open spec fn built(p: Predicate, op: Seq<char>, args: Seq<PredicateArg>) -> bool {
    let (base, positive, any) = split_spec(encode_utf8(op));
    let rest = args.skip(1);
    &&& args.len() > 0
    &&& args[0] matches PredicateArg::Capture(c) && p.capture == c
    &&& p.positive == positive
    &&& p.any == any
    &&& match p.test {
        Test::LuaMatch(regex) => base == "lua-match".spec_bytes() && match single_spec(op, rest) {
            Ok(pattern) => match lua_pattern::translate_spec(encode_utf8(pattern)) {
                Ok(source) => regex.pattern() == source && !regex.ignores_case() && regex.dot_all(),
                Err(_) => false,
            },
            Err(_) => false,
        },
        Test::VimMatch(regex) => base == "vim-match".spec_bytes() && match single_spec(op, rest) {
            Ok(pattern) => match vim_regex::translate_spec(encode_utf8(pattern)) {
                Ok((source, ci)) => regex.pattern() == source && regex.ignores_case() == ci
                    && !regex.dot_all(),
                Err(_) => false,
            },
            Err(_) => false,
        },
        Test::Contains(v) => base == "contains".spec_bytes() && strings_spec(rest) == Some(texts(v@)),
        Test::Kind(v) => base == "kind-eq".spec_bytes() && strings_spec(rest) == Some(texts(v@)),
        Test::Ancestor(v) => base == "has-ancestor".spec_bytes() && strings_spec(rest) == Some(
            texts(v@),
        ),
        Test::Parent(v) => base == "has-parent".spec_bytes() && strings_spec(rest) == Some(
            texts(v@),
        ),
        Test::Unsupported => false,
    }
}

proof fn lemma_prefixes()
    ensures
        "any-".spec_bytes() == seq![0x61u8, 0x6eu8, 0x79u8, 0x2du8],
        "not-".spec_bytes() == seq![0x6eu8, 0x6fu8, 0x74u8, 0x2du8],
{
    reveal_strlit("any-");
    assert(vstd::string::is_ascii("any-"));
    vstd::string::is_ascii_spec_bytes("any-");
    assert("any-".spec_bytes() =~= seq![0x61u8, 0x6eu8, 0x79u8, 0x2du8]);
    reveal_strlit("not-");
    assert(vstd::string::is_ascii("not-"));
    vstd::string::is_ascii_spec_bytes("not-");
    assert("not-".spec_bytes() =~= seq![0x6eu8, 0x6fu8, 0x74u8, 0x2du8]);
}

/// Split `any-not-lua-match?` into `("lua-match", positive, any)`.
pub fn split_name(operator: &str) -> (r: (&str, bool, bool))
    ensures
        r.0.spec_bytes() == split_spec(operator.spec_bytes()).0,
        r.1 == split_spec(operator.spec_bytes()).1,
        r.2 == split_spec(operator.spec_bytes()).2,
{
    proof {
        lemma_prefixes();
        lemma_str_valid(operator);
    }
    let b = operator.as_bytes();
    let ghost op = b@;
    let mut end = b.len();
    if end > 0 && b[end - 1] == 0x3f {
        end -= 1;
    }
    let ghost first = op.take(end as int);
    assert(first == if op.len() > 0 && op.last() == 0x3f {
        op.drop_last()
    } else {
        op
    });
    let any = end >= 4 && bytes_at(b, 0, "any-".as_bytes());
    proof {
        if end >= 4 {
            assert(first.take(4) =~= op.subrange(0, 4));
        }
    }
    let start: usize = if any {
        4
    } else {
        0
    };
    let not = end - start >= 4 && bytes_at(b, start, "not-".as_bytes());
    let ghost second = op.subrange(start as int, end as int);
    proof {
        if any {
            assert(first.skip(4) =~= second);
        } else {
            assert(first =~= second);
        }
        if end - start >= 4 {
            assert(second.take(4) =~= op.subrange(start as int, start + 4));
        }
    }
    let start: usize = if not {
        start + 4
    } else {
        start
    };
    proof {
        if not {
            assert(second.skip(4) =~= op.subrange(start as int, end as int));
        }
        if start > 0 {
            lemma_after_ascii(op, start - 1);
        }
        if end < op.len() {
            assert(char_start(op, end as int));
        }
        lemma_char_start_is_boundary(op, start as int);
        lemma_char_start_is_boundary(op, end as int);
    }
    match str_get(operator, start, end) {
        Some(base) => (base, !not, any),
        None => (operator, true, false),
    }
}

/// The string arguments, when every argument is a string.
fn strings(operator: &str, args: &[PredicateArg]) -> (r: Result<Vec<String>, String>)
    ensures
        match strings_spec(args@) {
            Some(v) => r is Ok && texts(r->Ok_0@) == v,
            None => r is Err && r->Err_0@ == not_strings_text(operator@),
        },
{
    let mut out: Vec<String> = Vec::new();
    let mut i: usize = 0;
    assert(texts(out@) =~= seq![]);
    while i < args.len()
        invariant
            i <= args@.len(),
            strings_spec(args@.take(i as int)) == Some(texts(out@)),
        decreases args@.len() - i,
    {
        assert(args@.take(i + 1).drop_last() =~= args@.take(i as int));
        match &args[i] {
            PredicateArg::String(value) => {
                let ghost before = texts(out@);
                out.push(value.clone());
                assert(texts(out@) =~= before.push(value@));
            },
            PredicateArg::Capture(_) => {
                proof {
                    lemma_strings_prefix(args@, i + 1);
                }
                let mut message = String::new();
                message.append("#");
                message.append(operator);
                message.append(" takes string arguments, got a capture");
                return Err(message);
            },
        }
        i += 1;
    }
    assert(args@.take(args@.len() as int) =~= args@);
    Ok(out)
}

/// Once a prefix of the arguments is not all strings, no longer one is.
proof fn lemma_strings_prefix(args: Seq<PredicateArg>, n: int)
    requires
        0 <= n <= args.len(),
        strings_spec(args.take(n)) is None,
    ensures
        strings_spec(args) is None,
    decreases args.len() - n,
{
    if n < args.len() {
        assert(args.take(n + 1).drop_last() =~= args.take(n));
        lemma_strings_prefix(args, n + 1);
    } else {
        assert(args.take(n) =~= args);
    }
}

/// The one string argument.
fn single_string(operator: &str, args: &[PredicateArg]) -> (r: Result<String, String>)
    ensures
        match single_spec(operator@, args@) {
            Ok(s) => r is Ok && r->Ok_0@ == s,
            Err(m) => r is Err && r->Err_0@ == m,
        },
{
    let values = strings(operator, args)?;
    if values.len() == 1 {
        Ok(values[0].clone())
    } else {
        let mut message = String::new();
        message.append("#");
        message.append(operator);
        message.append(" takes one string argument, got ");
        message.append(decimal(values.len()).as_str());
        Err(message)
    }
}

/// `"#" + operator + suffix`.
fn operator_message(operator: &str, suffix: &str) -> (r: String)
    ensures
        r@ == "#"@ + operator@ + suffix@,
{
    let mut message = String::new();
    message.append("#");
    message.append(operator);
    message.append(suffix);
    message
}

/// Whether two strings have the same UTF-8 bytes.
fn same_bytes(a: &str, b: &str) -> (r: bool)
    ensures
        r == (a.spec_bytes() == b.spec_bytes()),
{
    let ab = a.as_bytes();
    let bb = b.as_bytes();
    let r = crate::text::range_eq(ab, 0, ab.len(), bb);
    assert(ab@.subrange(0, ab@.len() as int) =~= ab@);
    r
}

impl Predicate {
    /// Compile one general predicate.
    pub fn compile(operator: &str, args: &[PredicateArg]) -> (r: Result<Predicate, String>)
        ensures
            match compile_outcome(operator@, args@) {
                Ok(_) => r is Ok && built(r->Ok_0, operator@, args@),
                Err(m) => r is Err && r->Err_0@ == m,
            },
    {
        let (base, positive, any) = split_name(operator);
        if args.len() == 0 {
            return Err(operator_message(operator, " does not start with a capture"));
        }
        let capture = match &args[0] {
            PredicateArg::Capture(capture) => *capture,
            PredicateArg::String(_) => {
                return Err(operator_message(operator, " does not start with a capture"));
            },
        };
        let rest = &args[1..args.len()];
        assert(rest@ =~= args@.skip(1));
        let test = if same_bytes(base, "lua-match") {
            let pattern = single_string(operator, rest)?;
            match lua_pattern::compile(pattern.as_str()) {
                Ok(regex) => Test::LuaMatch(regex),
                Err(e) => {
                    let mut message = operator_message(operator, ": ");
                    message.append(e.message().as_str());
                    return Err(message);
                },
            }
        } else if same_bytes(base, "vim-match") {
            let pattern = single_string(operator, rest)?;
            match vim_regex::compile(pattern.as_str()) {
                Ok(regex) => Test::VimMatch(regex),
                Err(e) => {
                    let mut message = operator_message(operator, ": ");
                    message.append(e.message().as_str());
                    return Err(message);
                },
            }
        } else if same_bytes(base, "contains") {
            Test::Contains(strings(operator, rest)?)
        } else if same_bytes(base, "kind-eq") {
            Test::Kind(strings(operator, rest)?)
        } else if same_bytes(base, "has-ancestor") {
            Test::Ancestor(strings(operator, rest)?)
        } else if same_bytes(base, "has-parent") {
            Test::Parent(strings(operator, rest)?)
        } else {
            return Err(operator_message(operator, " is not a predicate we know"));
        };
        Ok(Predicate { capture, test, positive, any })
    }
}

/// Whether `needle` occurs in `haystack`; an empty needle always does.
pub open spec fn contains_spec(haystack: Seq<u8>, needle: Seq<u8>) -> bool {
    needle.len() == 0 || exists|i: int|
        0 <= i && i + needle.len() <= haystack.len() && #[trigger] haystack.subrange(
            i,
            i + needle.len(),
        ) == needle
}

/// The text of a captured node, or nothing when its range is not in the
/// source.
pub open spec fn node_text(node: NodeFacts, source: Seq<u8>) -> Seq<u8> {
    if node.range.start_byte <= node.range.end_byte <= source.len() {
        source.subrange(node.range.start_byte as int, node.range.end_byte as int)
    } else {
        seq![]
    }
}

/// Whether one of `names` is `name`.
pub open spec fn names_hold(names: Seq<String>, name: Seq<char>) -> bool {
    exists|k: int| 0 <= k < names.len() && #[trigger] names[k]@ == name
}

/// Whether a test holds of a captured node.
pub open spec fn test_holds(test: Test, node: NodeFacts, source: Seq<u8>) -> bool {
    match test {
        Test::LuaMatch(regex) => regex_is_match(
            regex.pattern(),
            regex.ignores_case(),
            regex.dot_all(),
            node_text(node, source),
        ),
        Test::VimMatch(regex) => regex_is_match(
            regex.pattern(),
            regex.ignores_case(),
            regex.dot_all(),
            node_text(node, source),
        ),
        Test::Contains(needles) => exists|k: int|
            0 <= k < needles@.len() && contains_spec(
                node_text(node, source),
                encode_utf8(#[trigger] needles@[k]@),
            ),
        Test::Kind(kinds) => names_hold(kinds@, node.kind@),
        Test::Ancestor(kinds) => exists|a: int|
            0 <= a < node.ancestors@.len() && names_hold(kinds@, #[trigger] node.ancestors@[a]@),
        Test::Parent(kinds) => node.ancestors@.len() > 0 && names_hold(kinds@, node.ancestors@[0]@),
        Test::Unsupported => false,
    }
}

/// `#has-parent?` looks at the captured node's parent alone: it holds
/// exactly when the node has a parent whose type is one of the listed
/// kinds, whatever the ancestors further out are, and whenever it holds,
/// `#has-ancestor?` with the same kinds holds too.
pub proof fn lemma_has_parent_reads_the_parent(kinds: Vec<String>, node: NodeFacts, other: NodeFacts, source: Seq<u8>)
    ensures
        test_holds(Test::Parent(kinds), node, source) == (node.ancestors@.len() > 0 && exists|k: int|
            0 <= k < kinds@.len() && #[trigger] kinds@[k]@ == node.ancestors@[0]@),
        node.ancestors@.len() > 0 && other.ancestors@.len() > 0 && node.ancestors@[0]@ == other.ancestors@[0]@
            ==> test_holds(Test::Parent(kinds), node, source) == test_holds(Test::Parent(kinds), other, source),
        test_holds(Test::Parent(kinds), node, source) ==> test_holds(Test::Ancestor(kinds), node, source),
{
    if test_holds(Test::Parent(kinds), node, source) {
        assert(names_hold(kinds@, node.ancestors@[0]@));
    }
}

/// `#kind-eq?` holds exactly when the node's own type is listed,
/// `#has-ancestor?` exactly when the type of some node on the way out from
/// its parent is, and a predicate that could not be compiled never holds.
pub proof fn lemma_node_tests(kinds: Vec<String>, node: NodeFacts, source: Seq<u8>)
    ensures
        test_holds(Test::Kind(kinds), node, source) == exists|k: int|
            0 <= k < kinds@.len() && #[trigger] kinds@[k]@ == node.kind@,
        test_holds(Test::Ancestor(kinds), node, source) == exists|a: int, k: int|
            0 <= a < node.ancestors@.len() && 0 <= k < kinds@.len() && #[trigger] kinds@[k]@
                == #[trigger] node.ancestors@[a]@,
        !test_holds(Test::Unsupported, node, source),
{
    if test_holds(Test::Ancestor(kinds), node, source) {
        let a = choose|a: int|
            0 <= a < node.ancestors@.len() && names_hold(kinds@, #[trigger] node.ancestors@[a]@);
        assert(names_hold(kinds@, node.ancestors@[a]@));
    }
}

/// Whether a predicate holds of a match: a predicate that did not compile
/// never does; one whose capture matched nothing always does, so an optional
/// capture does not veto its pattern; otherwise one node (for `any-`) or
/// every node must give the test the predicate's polarity.
pub open spec fn predicate_holds(p: Predicate, m: MatchFacts, source: Seq<u8>) -> bool {
    let captures = m.captures@;
    if p.test is Unsupported {
        false
    } else if !exists|k: int| 0 <= k < captures.len() && #[trigger] captures[k].0 == p.capture {
        true
    } else if p.any {
        exists|k: int|
            0 <= k < captures.len() && #[trigger] captures[k].0 == p.capture && test_holds(
                p.test,
                captures[k].1,
                source,
            ) == p.positive
    } else {
        forall|k: int|
            0 <= k < captures.len() && #[trigger] captures[k].0 == p.capture ==> test_holds(
                p.test,
                captures[k].1,
                source,
            ) == p.positive
    }
}

/// Whether `needle` occurs in `haystack`.
pub fn contains(haystack: &[u8], needle: &[u8]) -> (r: bool)
    ensures
        r == contains_spec(haystack@, needle@),
{
    if needle.len() == 0 {
        return true;
    }
    if needle.len() > haystack.len() {
        return false;
    }
    let mut i: usize = 0;
    while i <= haystack.len() - needle.len()
        invariant
            needle@.len() > 0,
            needle@.len() <= haystack@.len(),
            i <= haystack@.len() - needle@.len() + 1,
            forall|j: int|
                0 <= j < i ==> #[trigger] haystack@.subrange(j, j + needle@.len()) != needle@,
        decreases haystack@.len() - needle@.len() + 1 - i,
    {
        if bytes_at(haystack, i, needle) {
            return true;
        }
        i += 1;
    }
    false
}

/// Whether one of `names` is `name`.
fn names_contain(names: &Vec<String>, name: &str) -> (r: bool)
    ensures
        r == names_hold(names@, name@),
{
    let mut k: usize = 0;
    while k < names.len()
        invariant
            k <= names@.len(),
            forall|j: int| 0 <= j < k ==> #[trigger] names@[j]@ != name@,
        decreases names@.len() - k,
    {
        if str_eq(names[k].as_str(), name) {
            return true;
        }
        k += 1;
    }
    false
}

/// The text of a captured node.
fn node_text_exec<'s>(node: &NodeFacts, source: &'s [u8]) -> (r: &'s [u8])
    ensures
        r@ == node_text(*node, source@),
{
    let start = node.range.start_byte;
    let end = node.range.end_byte;
    if start <= end && end <= source.len() {
        let (head, _) = source.split_at(end);
        let (_, text) = head.split_at(start);
        assert(text@ =~= source@.subrange(start as int, end as int));
        text
    } else {
        let (empty, _) = source.split_at(0);
        assert(empty@ =~= Seq::<u8>::empty());
        empty
    }
}

impl Test {
    /// Whether the test holds of a captured node.
    #[verifier::loop_isolation(false)]
    pub fn holds(&self, node: &NodeFacts, source: &[u8]) -> (r: bool)
        ensures
            r == test_holds(*self, *node, source@),
    {
        match self {
            Test::LuaMatch(regex) => regex.is_match(node_text_exec(node, source)),
            Test::VimMatch(regex) => regex.is_match(node_text_exec(node, source)),
            Test::Contains(needles) => {
                let haystack = node_text_exec(node, source);
                let mut k: usize = 0;
                while k < needles.len()
                    invariant
                        k <= needles@.len(),
                        haystack@ == node_text(*node, source@),
                        forall|j: int|
                            0 <= j < k ==> !contains_spec(haystack@, encode_utf8(#[trigger] needles@[j]@)),
                    decreases needles@.len() - k,
                {
                    if contains(haystack, needles[k].as_str().as_bytes()) {
                        assert(contains_spec(haystack@, encode_utf8(needles@[k as int]@)));
                        return true;
                    }
                    k += 1;
                }
                false
            },
            Test::Kind(kinds) => names_contain(kinds, node.kind.as_str()),
            Test::Ancestor(kinds) => {
                let mut a: usize = 0;
                while a < node.ancestors.len()
                    invariant
                        a <= node.ancestors@.len(),
                        forall|j: int|
                            0 <= j < a ==> !names_hold(kinds@, #[trigger] node.ancestors@[j]@),
                    decreases node.ancestors@.len() - a,
                {
                    if names_contain(kinds, node.ancestors[a].as_str()) {
                        assert(names_hold(kinds@, node.ancestors@[a as int]@));
                        return true;
                    }
                    a += 1;
                }
                false
            },
            Test::Parent(kinds) => node.ancestors.len() > 0 && names_contain(
                kinds,
                node.ancestors[0].as_str(),
            ),
            Test::Unsupported => false,
        }
    }
}

impl Predicate {
    /// Whether the predicate holds of a match.
    #[verifier::loop_isolation(false)]
    pub fn holds(&self, matched: &MatchFacts, source: &[u8]) -> (r: bool)
        ensures
            r == predicate_holds(*self, *matched, source@),
    {
        if matches!(self.test, Test::Unsupported) {
            return false;
        }
        let captures = &matched.captures;
        let mut seen = false;
        let mut k: usize = 0;
        while k < captures.len()
            invariant
                k <= captures@.len(),
                !(self.test is Unsupported),
                seen <==> exists|j: int| 0 <= j < k && #[trigger] captures@[j].0 == self.capture,
                self.any ==> forall|j: int|
                    0 <= j < k && #[trigger] captures@[j].0 == self.capture ==> test_holds(
                        self.test,
                        captures@[j].1,
                        source@,
                    ) != self.positive,
                !self.any ==> forall|j: int|
                    0 <= j < k && #[trigger] captures@[j].0 == self.capture ==> test_holds(
                        self.test,
                        captures@[j].1,
                        source@,
                    ) == self.positive,
            decreases captures@.len() - k,
        {
            if captures[k].0 == self.capture {
                seen = true;
                let result = self.test.holds(&captures[k].1, source) == self.positive;
                assert(captures@[k as int].0 == self.capture);
                if self.any && result {
                    assert(test_holds(self.test, captures@[k as int].1, source@) == self.positive);
                    return true;
                }
                if !self.any && !result {
                    assert(test_holds(self.test, captures@[k as int].1, source@) != self.positive);
                    return false;
                }
            }
            k += 1;
        }
        if !seen {
            return true;
        }
        !self.any
    }
}

/// Every general predicate of every pattern in a query.
pub struct Predicates {
    patterns: Vec<Vec<Predicate>>,
    /// Predicates not recognised, each reported once per query.
    unsupported: Vec<String>,
}

/// The predicates of a pattern that filter matches: directives, whose
/// operators end in `!`, annotate a match instead.
pub open spec fn conditions(preds: Seq<GeneralPredicate>) -> Seq<GeneralPredicate>
    decreases preds.len(),
{
    if preds.len() == 0 {
        seq![]
    } else {
        let rest = conditions(preds.drop_last());
        let op = preds.last().operator@;
        if op.len() > 0 && op.last() == '!' {
            rest
        } else {
            rest.push(preds.last())
        }
    }
}

/// Whether `p` is what a general predicate compiles to: the compiled
/// predicate, or one that never holds when it does not compile.
pub open spec fn compiled_from(p: Predicate, g: GeneralPredicate) -> bool {
    match compile_outcome(g.operator@, g.args@) {
        Ok(_) => built(p, g.operator@, g.args@),
        Err(_) => p.test is Unsupported && p.capture == 0 && p.positive && !p.any,
    }
}

/// `seen` with `message` added, unless it is already there.
pub open spec fn noted(seen: Seq<Seq<char>>, message: Seq<char>) -> Seq<Seq<char>> {
    if seen.contains(message) {
        seen
    } else {
        seen.push(message)
    }
}

/// The messages of the conditions that do not compile, each once, in the
/// order they first appear, after `seen`.
pub open spec fn failures(seen: Seq<Seq<char>>, preds: Seq<GeneralPredicate>) -> Seq<Seq<char>>
    decreases preds.len(),
{
    if preds.len() == 0 {
        seen
    } else {
        let before = failures(seen, preds.drop_last());
        match compile_outcome(preds.last().operator@, preds.last().args@) {
            Err(m) => noted(before, m),
            Ok(_) => before,
        }
    }
}

/// The failure messages of every pattern's conditions, each once.
pub open spec fn all_failures(patterns: Seq<Vec<GeneralPredicate>>) -> Seq<Seq<char>>
    decreases patterns.len(),
{
    if patterns.len() == 0 {
        seq![]
    } else {
        failures(all_failures(patterns.drop_last()), conditions(patterns.last()@))
    }
}

/// Whether `message` is among `seen`.
fn already_noted(seen: &Vec<String>, message: &String) -> (r: bool)
    ensures
        r == texts(seen@).contains(message@),
{
    let mut k: usize = 0;
    while k < seen.len()
        invariant
            k <= seen@.len(),
            forall|j: int| 0 <= j < k ==> #[trigger] seen@[j]@ != message@,
        decreases seen@.len() - k,
    {
        if str_eq(seen[k].as_str(), message.as_str()) {
            assert(texts(seen@)[k as int] == message@);
            return true;
        }
        k += 1;
    }
    assert(!texts(seen@).contains(message@)) by {
        if texts(seen@).contains(message@) {
            let j = choose|j: int| 0 <= j < texts(seen@).len() && texts(seen@)[j] == message@;
            assert(seen@[j]@ == message@);
        }
    }
    false
}

impl Predicates {
    /// The compiled predicates of each pattern.
    pub closed spec fn pattern_list(&self) -> Seq<Seq<Predicate>> {
        self.patterns@.map_values(|v: Vec<Predicate>| v@)
    }

    /// The messages of the predicates that could not be compiled.
    pub closed spec fn unsupported_list(&self) -> Seq<Seq<char>> {
        texts(self.unsupported@)
    }

    /// Compile the general predicates of every pattern of a query.
    pub fn compile(patterns: &[Vec<GeneralPredicate>]) -> (r: Self)
        ensures
            r.pattern_list().len() == patterns@.len(),
            forall|i: int|
                0 <= i < patterns@.len() ==> #[trigger] r.pattern_list()[i].len() == conditions(
                    patterns@[i]@,
                ).len() && forall|j: int|
                    0 <= j < r.pattern_list()[i].len() ==> compiled_from(
                        r.pattern_list()[i][j],
                        conditions(patterns@[i]@)[j],
                    ),
            r.unsupported_list() == all_failures(patterns@),
    {
        let mut unsupported: Vec<String> = Vec::new();
        let mut compiled: Vec<Vec<Predicate>> = Vec::new();
        let mut i: usize = 0;
        assert(texts(unsupported@) =~= all_failures(patterns@.take(0)));
        while i < patterns.len()
            invariant
                i <= patterns@.len(),
                compiled@.len() == i,
                forall|a: int|
                    0 <= a < i ==> #[trigger] compiled@[a]@.len() == conditions(patterns@[a]@).len()
                        && forall|j: int|
                        0 <= j < compiled@[a]@.len() ==> compiled_from(
                            compiled@[a]@[j],
                            conditions(patterns@[a]@)[j],
                        ),
                texts(unsupported@) == all_failures(patterns@.take(i as int)),
            decreases patterns@.len() - i,
        {
            let preds = &patterns[i];
            let ghost start = texts(unsupported@);
            let mut list: Vec<Predicate> = Vec::new();
            let mut j: usize = 0;
            while j < preds.len()
                invariant
                    j <= preds@.len(),
                    list@.len() == conditions(preds@.take(j as int)).len(),
                    forall|k: int|
                        0 <= k < list@.len() ==> compiled_from(
                            #[trigger] list@[k],
                            conditions(preds@.take(j as int))[k],
                        ),
                    texts(unsupported@) == failures(start, conditions(preds@.take(j as int))),
                decreases preds@.len() - j,
            {
                let ghost cs = conditions(preds@.take(j as int));
                let ghost before_list = list@;
                assert(preds@.take(j + 1).drop_last() =~= preds@.take(j as int));
                let operator = preds[j].operator.as_str();
                let n = operator.unicode_len();
                if n > 0 && operator.get_char(n - 1) == '!' {
                    assert(conditions(preds@.take(j + 1)) == cs);
                } else {
                    assert(conditions(preds@.take(j + 1)) == cs.push(preds@[j as int]));
                    assert(cs.push(preds@[j as int]).drop_last() =~= cs);
                    match Predicate::compile(operator, preds[j].args.as_slice()) {
                        Ok(compiled_predicate) => {
                            list.push(compiled_predicate);
                        },
                        Err(error) => {
                            let ghost before = texts(unsupported@);
                            if !already_noted(&unsupported, &error) {
                                unsupported.push(error);
                                assert(texts(unsupported@) =~= before.push(
                                    unsupported@.last()@,
                                ));
                            }
                            list.push(
                                Predicate {
                                    capture: 0,
                                    test: Test::Unsupported,
                                    positive: true,
                                    any: false,
                                },
                            );
                        },
                    }
                    assert forall|k: int| 0 <= k < list@.len() implies compiled_from(
                        #[trigger] list@[k],
                        conditions(preds@.take(j + 1))[k],
                    ) by {
                        if k < before_list.len() {
                            assert(list@[k] == before_list[k]);
                        }
                    }
                }
                j += 1;
            }
            assert(preds@.take(preds@.len() as int) =~= preds@);
            assert(patterns@.take(i + 1).drop_last() =~= patterns@.take(i as int));
            let ghost before_compiled = compiled@;
            compiled.push(list);
            assert forall|a: int| 0 <= a < i + 1 implies #[trigger] compiled@[a]@.len()
                == conditions(patterns@[a]@).len() && forall|j: int|
                0 <= j < compiled@[a]@.len() ==> compiled_from(
                    compiled@[a]@[j],
                    conditions(patterns@[a]@)[j],
                ) by {
                if a < i {
                    assert(compiled@[a] == before_compiled[a]);
                }
            }
            i += 1;
        }
        assert(patterns@.take(patterns@.len() as int) =~= patterns@);
        let r = Predicates { patterns: compiled, unsupported };
        assert forall|i: int| 0 <= i < patterns@.len() implies #[trigger] r.pattern_list()[i]
            == compiled@[i]@ by {}
        r
    }

    /// Descriptions of predicates that could not be compiled.
    pub fn unsupported(&self) -> (r: &[String])
        ensures
            texts(r@) == self.unsupported_list(),
    {
        self.unsupported.as_slice()
    }

    /// Whether every predicate on this match's pattern holds; a match of a
    /// pattern with no predicates is always accepted.
    #[verifier::loop_isolation(false)]
    pub fn accepts(&self, matched: &MatchFacts, source: &[u8]) -> (r: bool)
        ensures
            r == (matched.pattern_index >= self.pattern_list().len() || forall|j: int|
                0 <= j < self.pattern_list()[matched.pattern_index as int].len()
                    ==> predicate_holds(
                    #[trigger] self.pattern_list()[matched.pattern_index as int][j],
                    *matched,
                    source@,
                )),
    {
        if matched.pattern_index >= self.patterns.len() {
            return true;
        }
        let preds = &self.patterns[matched.pattern_index];
        assert(self.pattern_list()[matched.pattern_index as int] == preds@);
        let mut j: usize = 0;
        while j < preds.len()
            invariant
                j <= preds@.len(),
                forall|k: int| 0 <= k < j ==> predicate_holds(#[trigger] preds@[k], *matched, source@),
            decreases preds@.len() - j,
        {
            if !preds[j].holds(matched, source) {
                assert(!predicate_holds(preds@[j as int], *matched, source@));
                return false;
            }
            j += 1;
        }
        true
    }
}

} // verus!
