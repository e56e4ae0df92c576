//! Per-pattern metadata attached by `#set!` and the range/text directives.
//!
//! Directives are not conditions: they never decide whether a pattern matches,
//! they annotate the match. Neovim uses them for the highlight priority, for
//! naming an injected language, and for trimming a capture's range or text
//! before it is used. All of it is static per pattern, so it is read once when
//! the query is compiled rather than on every match.
use vstd::prelude::*;
use vstd::string::StringSliceAdditionalSpecFns;
use vstd::utf8::*;

use crate::query::lua_pattern;
pub use crate::query::lua_pattern::LuaPatternError;
use crate::query::number::{parse_i32, parse_u32, parsed_i32, parsed_u32};
use crate::query::predicate::{GeneralPredicate, PredicateArg};
use crate::query::regex_engine::{regex_replace_all, CompiledRegex};
use crate::query::rewrite::NVIM_SET;
use crate::text::{chars_of, push_char, str_eq};

verus! {

broadcast use vstd::seq_lib::group_seq_properties;

/// Neovim's default highlight priority when a pattern sets none.
pub const DEFAULT_PRIORITY: u32 = 100;

/// A `#offset!` directive: four deltas on a capture's `(row, column)` bounds.
#[derive(Debug, Clone, Copy, PartialEq, Eq)]
pub struct Offset {
    pub start_row: i32,
    pub start_column: i32,
    pub end_row: i32,
    pub end_column: i32,
}

/// What an injections pattern says about the language it embeds.
#[derive(Debug, PartialEq, Eq)]
pub struct Injection {
    /// A fixed language name, from `(#set! injection.language "...")`.
    pub language: Option<String>,
    /// Parse every match of this pattern as one document rather than
    /// separately, so constructs can span the gaps between them.
    pub combined: bool,
    /// Inject the content node whole. Without this the content node's named
    /// children are cut out of the injected region, which is how a template
    /// language keeps its interpolations to itself.
    pub include_children: bool,
    /// Inject the host language into itself.
    pub own_language: bool,
    /// Inject the language of the layer that contains this one.
    pub parent_language: bool,
}

/// A `#gsub!` directive: a Lua pattern, and the replacement for each match.
pub struct Gsub {
    pub pattern: CompiledRegex,
    pub replacement: String,
}

/// Everything the directives on one pattern say about it.
pub struct PatternMetadata {
    priority: Option<u32>,
    capture_priority: Vec<(u32, u32)>,
    /// Row/column deltas applied to a capture's range by `#offset!`.
    offsets: Vec<(u32, Offset)>,
    /// Text substitutions applied to a capture by `#gsub!`.
    gsubs: Vec<(u32, Gsub)>,
    /// What the pattern says about the language it injects.
    injection: Injection,
}

/// What an injections pattern says, as plain values.
pub open spec fn injection_view(i: Injection) -> InjectionView {
    (opt_text(i.language), i.combined, i.include_children, i.own_language, i.parent_language)
}

/// The value last recorded for `key`, when there is one.
pub open spec fn latest<T>(entries: Seq<(u32, T)>, key: u32) -> Option<T>
    decreases entries.len(),
{
    if entries.len() == 0 {
        None
    } else if entries.last().0 == key {
        Some(entries.last().1)
    } else {
        latest(entries.drop_last(), key)
    }
}

/// The value last recorded for `key` in `entries[..n)`.
fn latest_index<T>(entries: &Vec<(u32, T)>, key: u32) -> (r: Option<usize>)
    ensures
        match r {
            Some(i) => i < entries@.len() && latest(entries@, key) == Some(entries@[i as int].1),
            None => latest(entries@, key) is None,
        },
{
    let mut n = entries.len();
    while n > 0
        invariant
            n <= entries@.len(),
            latest(entries@, key) == latest(entries@.take(n as int), key),
        decreases n,
    {
        assert(entries@.take(n as int).drop_last() =~= entries@.take(n - 1));
        if entries[n - 1].0 == key {
            return Some(n - 1);
        }
        n -= 1;
    }
    assert(entries@.take(0) =~= Seq::<(u32, T)>::empty());
    None
}

/// A `#set!` directive: an optional capture it applies to, a key, and an
/// optional value.
#[derive(Debug)]
pub struct SetDirective {
    pub capture: Option<u32>,
    pub key: String,
    pub value: Option<String>,
}

/// The string arguments, in order.
pub open spec fn string_args(args: Seq<PredicateArg>) -> Seq<Seq<char>>
    decreases args.len(),
{
    if args.len() == 0 {
        seq![]
    } else {
        match args.last() {
            PredicateArg::String(s) => string_args(args.drop_last()).push(s@),
            PredicateArg::Capture(_) => string_args(args.drop_last()),
        }
    }
}

/// What a `#set!` says: the capture it names first, if it names one before
/// any string, its first string as the key, and its second, if any, as the
/// value. Nothing when it has no string at all.
pub open spec fn set_spec(args: Seq<PredicateArg>) -> Option<(Option<u32>, Seq<char>, Option<Seq<char>>)> {
    let strings = string_args(args);
    if strings.len() == 0 {
        None
    } else {
        Some(
            (
                match args[0] {
                    PredicateArg::Capture(c) => Some(c),
                    PredicateArg::String(_) => None,
                },
                strings[0],
                if strings.len() > 1 {
                    Some(strings[1])
                } else {
                    None
                },
            ),
        )
    }
}

/// An optional string as plain values.
pub open spec fn opt_text(s: Option<String>) -> Option<Seq<char>> {
    match s {
        Some(t) => Some(t@),
        None => None,
    }
}

impl SetDirective {
    /// The value as text.
    pub fn text(&self) -> (r: Option<String>)
        ensures
            opt_text(r) == opt_text(self.value),
    {
        match &self.value {
            Some(value) => Some(value.clone()),
            None => None,
        }
    }

    /// The value as a number.
    pub fn number(&self) -> (r: Option<u32>)
        ensures
            r == match self.value {
                Some(value) => parsed_u32(value@),
                None => None,
            },
    {
        match &self.value {
            Some(value) => parse_u32(value.as_str()),
            None => None,
        }
    }
}

/// Parse the arguments of a `#set!`.
///
/// Neovim allows `(#set! key value)`, `(#set! @capture key value)` and
/// `(#set! @capture key @other)`; the last has no string value, and is only
/// used for editor-only keys, so its value is simply dropped.
pub fn parse_set(args: &[PredicateArg]) -> (r: Option<SetDirective>)
    ensures
        match set_spec(args@) {
            Some((capture, key, value)) => r is Some && r->0.capture == capture && r->0.key@ == key
                && opt_text(r->0.value) == value,
            None => r is None,
        },
{
    let mut strings: Vec<String> = Vec::new();
    let mut i: usize = 0;
    assert(strings@.map_values(|s: String| s@) =~= string_args(args@.take(0)));
    while i < args.len()
        invariant
            i <= args@.len(),
            strings@.map_values(|s: String| s@) == string_args(args@.take(i as int)),
        decreases args@.len() - i,
    {
        assert(args@.take(i + 1).drop_last() =~= args@.take(i as int));
        match &args[i] {
            PredicateArg::String(value) => {
                let ghost before = strings@.map_values(|s: String| s@);
                strings.push(value.clone());
                assert(strings@.map_values(|s: String| s@) =~= before.push(value@));
            },
            PredicateArg::Capture(_) => {},
        }
        i += 1;
    }
    assert(args@.take(args@.len() as int) =~= args@);
    if strings.len() == 0 {
        return None;
    }
    let capture = match &args[0] {
        PredicateArg::Capture(c) => Some(*c),
        PredicateArg::String(_) => None,
    };
    let key = strings[0].clone();
    let value = if strings.len() > 1 {
        Some(strings[1].clone())
    } else {
        None
    };
    Some(SetDirective { capture, key, value })
}

/// The `#offset!` deltas: the capture, then up to four numbers, any missing
/// ones zero; nothing when the capture is missing or an argument given is not
/// a number.
pub open spec fn offset_spec(args: Seq<PredicateArg>) -> Option<(u32, Offset)> {
    if !(args.len() > 0 && args[0] is Capture) {
        None
    } else {
        let rest = args.skip(1);
        let n = if rest.len() < 4 {
            rest.len() as int
        } else {
            4
        };
        if exists|k: int|
            0 <= k < n && !(#[trigger] rest[k] matches PredicateArg::String(s) && parsed_i32(s@) is Some) {
            None
        } else {
            let delta = |k: int|
                if k < n {
                    match rest[k] {
                        PredicateArg::String(s) => parsed_i32(s@)->0,
                        PredicateArg::Capture(_) => 0,
                    }
                } else {
                    0
                };
            Some(
                (
                    args[0]->Capture_0,
                    Offset {
                        start_row: delta(0),
                        start_column: delta(1),
                        end_row: delta(2),
                        end_column: delta(3),
                    },
                ),
            )
        }
    }
}

/// Parse the arguments of a `#offset!`.
pub fn parse_offset(args: &[PredicateArg]) -> (r: Option<(u32, Offset)>)
    ensures
        r == offset_spec(args@),
{
    if args.len() == 0 {
        return None;
    }
    let capture = match &args[0] {
        PredicateArg::Capture(c) => *c,
        PredicateArg::String(_) => {
            return None;
        },
    };
    let ghost rest = args@.skip(1);
    let n: usize = if args.len() - 1 < 4 {
        args.len() - 1
    } else {
        4
    };
    let mut deltas: [i32; 4] = [0, 0, 0, 0];
    let mut k: usize = 0;
    while k < n
        invariant
            k <= n,
            n <= 4,
            n <= rest.len(),
            rest == args@.skip(1),
            args@.len() == rest.len() + 1,
            forall|j: int|
                0 <= j < k ==> (#[trigger] rest[j] matches PredicateArg::String(s) && parsed_i32(s@)
                    == Some(deltas@[j])),
            forall|j: int| k <= j < 4 ==> #[trigger] deltas@[j] == 0,
        decreases n - k,
    {
        match &args[k + 1] {
            PredicateArg::String(value) => match parse_i32(value.as_str()) {
                Some(d) => {
                    deltas[k] = d;
                },
                None => {
                    assert(!(rest[k as int] matches PredicateArg::String(s) && parsed_i32(s@) is Some));
                    return None;
                },
            },
            PredicateArg::Capture(_) => {
                assert(!(rest[k as int] matches PredicateArg::String(s) && parsed_i32(s@) is Some));
                return None;
            },
        }
        k += 1;
    }
    let offset = Offset {
        start_row: deltas[0],
        start_column: deltas[1],
        end_row: deltas[2],
        end_column: deltas[3],
    };
    let ghost spec_n = if rest.len() < 4 {
        rest.len() as int
    } else {
        4
    };
    assert(spec_n == n);
    Some((capture, offset))
}

/// How a Lua `gsub` replacement is written as a regex replacement, from the
/// `i`-th character on: `%n` becomes `${n}`, `%` before another character
/// stands for that character, and `$` is doubled. Nothing when a `%` comes
/// before a character outside ASCII, which has no such translation.
pub open spec fn replacement_from(s: Seq<char>, i: int) -> Option<Seq<char>>
    decreases s.len() - i,
{
    if i < 0 || i >= s.len() {
        Some(seq![])
    } else if s[i] == '%' && i + 1 < s.len() {
        let next = s[i + 1];
        if (next as u32) >= 0x80 {
            None
        } else {
            match replacement_from(s, i + 2) {
                Some(rest) => Some(
                    if '0' <= next <= '9' {
                        "${"@ + seq![next] + "}"@ + rest
                    } else {
                        seq![next] + rest
                    },
                ),
                None => None,
            }
        }
    } else if s[i] == '$' {
        match replacement_from(s, i + 1) {
            Some(rest) => Some("$$"@ + rest),
            None => None,
        }
    } else {
        match replacement_from(s, i + 1) {
            Some(rest) => Some(seq![s[i]] + rest),
            None => None,
        }
    }
}

/// Whether a Lua `gsub` replacement has a regex form: no `%` in it comes
/// before a character outside ASCII.
pub fn has_regex_form(replacement: &str) -> (r: bool)
    ensures
        r == replacement_from(replacement@, 0) is Some,
{
    let s = chars_of(replacement);
    let ghost sv = s@;
    let mut index: usize = 0;
    while index < s.len()
        invariant
            sv == s@,
            sv == replacement@,
            index <= sv.len() + 1,
            (replacement_from(sv, 0) is Some) == (replacement_from(sv, index as int) is Some),
        decreases sv.len() + 1 - index,
    {
        if s[index] == '%' && index + 1 < s.len() {
            if (s[index + 1] as u32) >= 0x80 {
                return false;
            }
            index += 2;
        } else {
            index += 1;
        }
    }
    true
}

/// Translate a Lua `gsub` replacement into a regex replacement.
///
/// Lua writes capture references as `%1`; a regex writes them as `${1}`. `$`
/// is ordinary in Lua, so it has to be escaped on the way out.
pub fn lua_replacement_to_regex(replacement: &str) -> (r: String)
    requires
        replacement_from(replacement@, 0) is Some,
    ensures
        r@ == replacement_from(replacement@, 0)->0,
{
    let s = chars_of(replacement);
    let ghost sv = s@;
    let mut out = String::new();
    let mut index: usize = 0;
    while index < s.len()
        invariant
            sv == s@,
            index <= sv.len() + 1,
            replacement_from(sv, 0) is Some,
            replacement_from(sv, index as int) is Some,
            replacement_from(sv, 0)->0 == out@ + replacement_from(sv, index as int)->0,
        decreases sv.len() + 1 - index,
    {
        let ghost before = out@;
        let ghost i0 = index as int;
        let c = s[index];
        if c == '%' && index + 1 < s.len() {
            let next = s[index + 1];
            let ghost piece = if '0' <= next <= '9' {
                "${"@ + seq![next] + "}"@
            } else {
                seq![next]
            };
            assert(replacement_from(sv, i0) == Some(piece + replacement_from(sv, i0 + 2)->0));
            if '0' <= next && next <= '9' {
                out.append("${");
                push_char(&mut out, next);
                out.append("}");
            } else {
                push_char(&mut out, next);
            }
            assert(out@ =~= before + piece);
            index += 2;
        } else if c == '$' {
            assert(replacement_from(sv, i0) == Some("$$"@ + replacement_from(sv, i0 + 1)->0));
            out.append("$$");
            index += 1;
        } else {
            assert(replacement_from(sv, i0) == Some(seq![c] + replacement_from(sv, i0 + 1)->0));
            push_char(&mut out, c);
            index += 1;
        }
        assert(replacement_from(sv, 0)->0 =~= out@ + replacement_from(sv, index as int)->0);
    }
    assert(replacement_from(sv, index as int) == Some(Seq::<char>::empty()));
    assert(out@ + Seq::<char>::empty() =~= out@);
    out
}

/// What `String::from_utf8_lossy` makes of bytes.
pub uninterp spec fn lossy_text(bytes: Seq<u8>) -> Seq<char>;

/// `String::from_utf8_lossy` from std: the contract claims the result is the
/// named decoding of these bytes, and, as std documents, exactly the text the
/// bytes encode when they are UTF-8.
#[verifier::external_body]
fn from_utf8_lossy(bytes: &[u8]) -> (s: String)
    ensures
        s@ == lossy_text(bytes@),
        valid_utf8(bytes@) ==> s@ == decode_utf8(bytes@),
{
    String::from_utf8_lossy(bytes).into_owned()
}

/// The key of the `#set!` that injects a content node whole.
pub open spec fn whole_node_key() -> Seq<char> {
    "injection.in"@ + "clude-children"@
}

/// What an injections pattern says, as plain values: the fixed language, and
/// the combined, whole-node, own-language and parent-language flags.
pub type InjectionView = (Option<Seq<char>>, bool, bool, bool, bool);

/// A pattern's metadata as plain values: its priority, the priorities set per
/// capture, the offsets per capture, the substitutions per capture (regex
/// source and replacement), and what it says about injection.
pub type MetadataView = (
    Option<u32>,
    Seq<(u32, u32)>,
    Seq<(u32, Offset)>,
    Seq<(u32, (Seq<char>, Seq<char>))>,
    InjectionView,
);

/// The metadata of a pattern with no directives.
pub open spec fn no_metadata() -> MetadataView {
    (None, seq![], seq![], seq![], (None, false, false, false, false))
}

/// The number a `#set!` value reads as.
pub open spec fn value_number(value: Option<Seq<char>>) -> Option<u32> {
    match value {
        Some(v) => parsed_u32(v),
        None => None,
    }
}

/// The metadata after one `#set!`. Keys that only mean something inside an
/// editor -- `conceal`, `url`, `bo.commentstring` and the like -- change
/// nothing.
pub open spec fn set_step(m: MetadataView, args: Seq<PredicateArg>) -> MetadataView {
    let (priority, captures, offsets, gsubs, injection) = m;
    let (language, combined, whole, own, parent) = injection;
    match set_spec(args) {
        None => m,
        Some((capture, key, value)) => if key == "priority"@ {
            match capture {
                None => (value_number(value), captures, offsets, gsubs, injection),
                Some(c) => match value_number(value) {
                    Some(p) => (priority, captures.push((c, p)), offsets, gsubs, injection),
                    None => m,
                },
            }
        } else if key == "injection.language"@ {
            (priority, captures, offsets, gsubs, (value, combined, whole, own, parent))
        } else if key == "injection.combined"@ {
            (priority, captures, offsets, gsubs, (language, true, whole, own, parent))
        } else if key == whole_node_key() {
            (priority, captures, offsets, gsubs, (language, combined, true, own, parent))
        } else if key == "injection.self"@ {
            (priority, captures, offsets, gsubs, (language, combined, whole, true, parent))
        } else if key == "injection.parent"@ {
            (priority, captures, offsets, gsubs, (language, combined, whole, own, true))
        } else {
            m
        },
    }
}

/// The arguments of a `#gsub!`, when they have its shape: a capture, a Lua
/// pattern and a replacement.
pub open spec fn gsub_shape(args: Seq<PredicateArg>) -> Option<(u32, Seq<char>, Seq<char>)> {
    if args.len() == 3 {
        match (args[0], args[1], args[2]) {
            (PredicateArg::Capture(c), PredicateArg::String(p), PredicateArg::String(r)) => Some(
                (c, p@, r@),
            ),
            _ => None,
        }
    } else {
        None
    }
}

/// The metadata after one directive: `Ok` with the new metadata, `Err` when a
/// `#gsub!` pattern does not compile, and nothing where its replacement has
/// no regex form.
pub open spec fn directive_step(m: MetadataView, g: GeneralPredicate) -> Option<Result<MetadataView, ()>> {
    let (priority, captures, offsets, gsubs, injection) = m;
    let op = g.operator@;
    if op == NVIM_SET@ {
        Some(Ok(set_step(m, g.args@)))
    } else if op == "offset!"@ {
        match offset_spec(g.args@) {
            Some((c, o)) => Some(Ok((priority, captures, offsets.push((c, o)), gsubs, injection))),
            None => Some(Ok(m)),
        }
    } else if op == "gsub!"@ {
        match gsub_shape(g.args@) {
            None => Some(Ok(m)),
            Some((c, pattern, replacement)) => match lua_pattern::translate_spec(encode_utf8(pattern)) {
                Ok(source) => if crate::query::regex_engine::regex_accepts(source, false, true) {
                    match replacement_from(replacement, 0) {
                        Some(template) => Some(
                            Ok((priority, captures, offsets, gsubs.push((c, (source, template))), injection)),
                        ),
                        None => None,
                    }
                } else {
                    Some(Err(()))
                },
                Err(_) => Some(Err(())),
            },
        }
    } else {
        Some(Ok(m))
    }
}

/// The metadata the directives of a pattern give it, read in order.
pub open spec fn pattern_outcome(preds: Seq<GeneralPredicate>) -> Option<Result<MetadataView, ()>>
    decreases preds.len(),
{
    if preds.len() == 0 {
        Some(Ok(no_metadata()))
    } else {
        match pattern_outcome(preds.drop_last()) {
            Some(Ok(m)) => directive_step(m, preds.last()),
            other => other,
        }
    }
}

proof fn lemma_outcome_prefix(preds: Seq<GeneralPredicate>, n: int)
    requires
        0 <= n <= preds.len(),
        pattern_outcome(preds) is Some,
    ensures
        pattern_outcome(preds.take(n)) is Some,
        pattern_outcome(preds.take(n)) matches Some(Err(_)) ==> pattern_outcome(preds) matches Some(
            Err(_),
        ),
    decreases preds.len() - n,
{
    if n < preds.len() {
        lemma_outcome_prefix(preds.drop_last(), n);
        assert(preds.drop_last().take(n) =~= preds.take(n));
    } else {
        assert(preds.take(n) =~= preds);
    }
}

impl PatternMetadata {
    /// The metadata as plain values.
    pub closed spec fn view_of(&self) -> MetadataView {
        (
            self.priority,
            self.capture_priority@,
            self.offsets@,
            self.gsubs@.map_values(
                |g: (u32, Gsub)| (g.0, (g.1.pattern.pattern(), g.1.replacement@)),
            ),
            (
                opt_text(self.injection.language),
                self.injection.combined,
                self.injection.include_children,
                self.injection.own_language,
                self.injection.parent_language,
            ),
        )
    }

    /// Every substitution runs a Lua pattern, as compiled for one.
    pub closed spec fn wf(&self) -> bool {
        forall|k: int|
            0 <= k < self.gsubs@.len() ==> !(#[trigger] self.gsubs@[k]).1.pattern.ignores_case()
                && self.gsubs@[k].1.pattern.dot_all()
    }

    /// What the pattern says about the language it injects.
    pub fn injection(&self) -> (r: &Injection)
        ensures
            injection_view(*r) == self.view_of().4,
    {
        &self.injection
    }

    /// The metadata of a pattern with no directives.
    pub fn empty() -> (r: PatternMetadata)
        ensures
            r.view_of() == no_metadata(),
            r.wf(),
    {
        let r = PatternMetadata {
            priority: None,
            capture_priority: Vec::new(),
            offsets: Vec::new(),
            gsubs: Vec::new(),
            injection: Injection {
                language: None,
                combined: false,
                include_children: false,
                own_language: false,
                parent_language: false,
            },
        };
        assert(r.view_of() =~= no_metadata());
        r
    }

    fn apply_set(&mut self, args: &[PredicateArg])
        ensures
            final(self).view_of() == set_step(old(self).view_of(), args@),
            final(self).gsubs@ == old(self).gsubs@,
    {
        let set = match parse_set(args) {
            Some(set) => set,
            None => {
                return;
            },
        };
        let key = set.key.as_str();
        if str_eq(key, "priority") {
            match set.capture {
                None => {
                    self.priority = set.number();
                },
                Some(capture) => {
                    if let Some(priority) = set.number() {
                        self.capture_priority.push((capture, priority));
                    }
                },
            }
        } else if str_eq(key, "injection.language") {
            self.injection.language = set.text();
        } else if str_eq(key, "injection.combined") {
            self.injection.combined = true;
        } else if is_whole_node_key(key) {
            self.injection.include_children = true;
        } else if str_eq(key, "injection.self") {
            self.injection.own_language = true;
        } else if str_eq(key, "injection.parent") {
            self.injection.parent_language = true;
        }
    }

    /// Read the directives of one pattern, in order.
    pub fn compile(preds: &[GeneralPredicate]) -> (r: Result<PatternMetadata, LuaPatternError>)
        requires
            pattern_outcome(preds@) is Some,
        ensures
            match pattern_outcome(preds@) {
                Some(Ok(m)) => r is Ok && r->Ok_0.view_of() == m && r->Ok_0.wf(),
                _ => r is Err,
            },
    {
        let mut metadata = PatternMetadata::empty();
        let mut i: usize = 0;
        while i < preds.len()
            invariant
                i <= preds@.len(),
                pattern_outcome(preds@) is Some,
                pattern_outcome(preds@.take(i as int)) == Some(
                    Ok::<MetadataView, ()>(metadata.view_of()),
                ),
                metadata.wf(),
            decreases preds@.len() - i,
        {
            let ghost before = metadata.view_of();
            let g = &preds[i];
            assert(preds@.take(i + 1).drop_last() =~= preds@.take(i as int));
            proof {
                lemma_outcome_prefix(preds@, i + 1);
            }
            let operator = g.operator.as_str();
            if str_eq(operator, NVIM_SET) {
                metadata.apply_set(g.args.as_slice());
            } else if str_eq(operator, "offset!") {
                if let Some((capture, offset)) = parse_offset(g.args.as_slice()) {
                    metadata.offsets.push((capture, offset));
                }
                assert(metadata.view_of() =~= directive_step(before, *g)->0->Ok_0);
            } else if str_eq(operator, "gsub!") {
                let args = g.args.as_slice();
                if args.len() == 3 {
                    match (&args[0], &args[1], &args[2]) {
                        (PredicateArg::Capture(capture), PredicateArg::String(pattern), PredicateArg::String(replacement)) => {
                            let regex = match lua_pattern::compile(pattern.as_str()) {
                                Ok(regex) => regex,
                                Err(e) => {
                                    proof {
                                        lemma_outcome_prefix(preds@, i + 1);
                                    }
                                    return Err(e);
                                },
                            };
                            let template = lua_replacement_to_regex(replacement.as_str());
                            let ghost gsubs_before = metadata.gsubs@;
                            metadata.gsubs.push((*capture, Gsub { pattern: regex, replacement: template }));
                            assert(metadata.gsubs@.map_values(
                                |g: (u32, Gsub)| (g.0, (g.1.pattern.pattern(), g.1.replacement@)),
                            ) =~= gsubs_before.map_values(
                                |g: (u32, Gsub)| (g.0, (g.1.pattern.pattern(), g.1.replacement@)),
                            ).push((*capture, (regex_source_of(pattern@), template@))));
                            assert forall|k: int| 0 <= k < metadata.gsubs@.len() implies !(
                            #[trigger] metadata.gsubs@[k]).1.pattern.ignores_case()
                                && metadata.gsubs@[k].1.pattern.dot_all() by {
                                if k < gsubs_before.len() {
                                    assert(metadata.gsubs@[k] == gsubs_before[k]);
                                }
                            }
                        },
                        _ => {},
                    }
                }
                assert(metadata.view_of() =~= directive_step(before, *g)->0->Ok_0);
            }
            i += 1;
        }
        assert(preds@.take(preds@.len() as int) =~= preds@);
        Ok(metadata)
    }

    /// The priority a capture's highlight is painted with: its own, else the
    /// pattern's, else the default.
    pub fn priority(&self, capture: u32) -> (r: u32)
        ensures
            r == match latest(self.view_of().1, capture) {
                Some(p) => p,
                None => match self.view_of().0 {
                    Some(p) => p,
                    None => DEFAULT_PRIORITY,
                },
            },
    {
        match latest_index(&self.capture_priority, capture) {
            Some(i) => self.capture_priority[i].1,
            None => match self.priority {
                Some(p) => p,
                None => DEFAULT_PRIORITY,
            },
        }
    }

    /// The `#offset!` applied to a capture, if any.
    pub fn offset(&self, capture: u32) -> (r: Option<Offset>)
        ensures
            r == latest(self.view_of().2, capture),
    {
        match latest_index(&self.offsets, capture) {
            Some(i) => Some(self.offsets[i].1),
            None => None,
        }
    }

    /// Apply any `#gsub!` for a capture to text taken from it.
    pub fn substitute(&self, capture: u32, text: &str) -> (r: String)
        requires
            self.wf(),
        ensures
            match latest(self.view_of().3, capture) {
                None => r@ == text@,
                Some((source, template)) => r@ == lossy_text(
                    regex_replace_all(source, false, true, text.spec_bytes(), encode_utf8(template)),
                ),
            },
    {
        proof {
            lemma_latest_map(self.gsubs@, capture);
        }
        match latest_index(&self.gsubs, capture) {
            None => String::from_str(text),
            Some(i) => {
                let gsub = &self.gsubs[i].1;
                let replaced = gsub.pattern.replace_all(text.as_bytes(), gsub.replacement.as_str().as_bytes());
                from_utf8_lossy(replaced.as_slice())
            },
        }
    }
}

/// The regex source a Lua pattern translates to.
pub open spec fn regex_source_of(pattern: Seq<char>) -> Seq<char> {
    lua_pattern::translate_spec(encode_utf8(pattern))->Ok_0
}

proof fn lemma_latest_map(gsubs: Seq<(u32, Gsub)>, key: u32)
    ensures
        match latest(gsubs, key) {
            Some(g) => latest(
                gsubs.map_values(|g: (u32, Gsub)| (g.0, (g.1.pattern.pattern(), g.1.replacement@))),
                key,
            ) == Some((g.pattern.pattern(), g.replacement@)),
            None => latest(
                gsubs.map_values(|g: (u32, Gsub)| (g.0, (g.1.pattern.pattern(), g.1.replacement@))),
                key,
            ) is None,
        },
    decreases gsubs.len(),
{
    if gsubs.len() > 0 {
        let f = |g: (u32, Gsub)| (g.0, (g.1.pattern.pattern(), g.1.replacement@));
        assert(gsubs.map_values(f).drop_last() =~= gsubs.drop_last().map_values(f));
        lemma_latest_map(gsubs.drop_last(), key);
    }
}

/// Whether a `#set!` key asks for the content node whole.
fn is_whole_node_key(key: &str) -> (r: bool)
    ensures
        r == (key@ == whole_node_key()),
{
    let mut expected = String::from_str("injection.in");
    expected.append("clude-children");
    str_eq(key, expected.as_str())
}

/// The directives of every pattern in a query.
pub struct Metadata {
    patterns: Vec<PatternMetadata>,
    empty: PatternMetadata,
}

/// The metadata of every pattern, read in order: the first pattern whose
/// directives fail ends the reading.
pub open spec fn query_outcome(patterns: Seq<Vec<GeneralPredicate>>) -> Option<Result<Seq<MetadataView>, ()>>
    decreases patterns.len(),
{
    if patterns.len() == 0 {
        Some(Ok(seq![]))
    } else {
        match query_outcome(patterns.drop_last()) {
            Some(Ok(list)) => match pattern_outcome(patterns.last()@) {
                Some(Ok(m)) => Some(Ok(list.push(m))),
                Some(Err(())) => Some(Err(())),
                None => None,
            },
            other => other,
        }
    }
}

proof fn lemma_query_prefix(patterns: Seq<Vec<GeneralPredicate>>, n: int)
    requires
        0 <= n <= patterns.len(),
        query_outcome(patterns) is Some,
    ensures
        query_outcome(patterns.take(n)) is Some,
        query_outcome(patterns.take(n)) matches Some(Err(_)) ==> query_outcome(patterns) matches Some(
            Err(_),
        ),
    decreases patterns.len() - n,
{
    if n < patterns.len() {
        lemma_query_prefix(patterns.drop_last(), n);
        assert(patterns.drop_last().take(n) =~= patterns.take(n));
    } else {
        assert(patterns.take(n) =~= patterns);
    }
}

impl Metadata {
    /// The metadata of each pattern, as plain values.
    pub closed spec fn view_list(&self) -> Seq<MetadataView> {
        self.patterns@.map_values(|p: PatternMetadata| p.view_of())
    }

    /// Every pattern's metadata, and the one a missing pattern gets, is well
    /// formed; the latter has no directives.
    pub closed spec fn wf(&self) -> bool {
        &&& forall|k: int| 0 <= k < self.patterns@.len() ==> (#[trigger] self.patterns@[k]).wf()
        &&& self.empty.wf()
        &&& self.empty.view_of() == no_metadata()
    }

    /// Read the directives of every pattern of a query.
    pub fn compile(patterns: &[Vec<GeneralPredicate>]) -> (r: Result<Metadata, LuaPatternError>)
        requires
            query_outcome(patterns@) is Some,
        ensures
            match query_outcome(patterns@) {
                Some(Ok(list)) => r is Ok && r->Ok_0.view_list() == list && r->Ok_0.wf(),
                _ => r is Err,
            },
    {
        let mut list: Vec<PatternMetadata> = Vec::new();
        let mut i: usize = 0;
        assert(list@.map_values(|p: PatternMetadata| p.view_of()) =~= Seq::<MetadataView>::empty());
        while i < patterns.len()
            invariant
                i <= patterns@.len(),
                query_outcome(patterns@) is Some,
                query_outcome(patterns@.take(i as int)) == Some(
                    Ok::<Seq<MetadataView>, ()>(list@.map_values(|p: PatternMetadata| p.view_of())),
                ),
                forall|k: int| 0 <= k < list@.len() ==> (#[trigger] list@[k]).wf(),
            decreases patterns@.len() - i,
        {
            assert(patterns@.take(i + 1).drop_last() =~= patterns@.take(i as int));
            proof {
                lemma_query_prefix(patterns@, i + 1);
            }
            let ghost before = list@;
            match PatternMetadata::compile(patterns[i].as_slice()) {
                Ok(metadata) => {
                    list.push(metadata);
                    assert(list@.map_values(|p: PatternMetadata| p.view_of()) =~= before.map_values(
                        |p: PatternMetadata| p.view_of(),
                    ).push(list@.last().view_of()));
                    assert forall|k: int| 0 <= k < list@.len() implies (#[trigger] list@[k]).wf() by {
                        if k < before.len() {
                            assert(list@[k] == before[k]);
                        }
                    }
                },
                Err(e) => {
                    return Err(e);
                },
            }
            i += 1;
        }
        assert(patterns@.take(patterns@.len() as int) =~= patterns@);
        Ok(Metadata { patterns: list, empty: PatternMetadata::empty() })
    }

    /// The directives of one pattern; none for a pattern the query lacks.
    pub fn pattern(&self, index: usize) -> (r: &PatternMetadata)
        requires
            self.wf(),
        ensures
            r.wf(),
            r.view_of() == if index < self.view_list().len() {
                self.view_list()[index as int]
            } else {
                no_metadata()
            },
    {
        if index < self.patterns.len() {
            &self.patterns[index]
        } else {
            &self.empty
        }
    }
}

} // verus!
