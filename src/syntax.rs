use vstd::prelude::*;
use vstd::string::*;


use tree_sitter::{Language, QueryError};
use tree_sitter_highlight::{Error as TsError, HighlightConfiguration, HighlightEvent as Ev, Highlighter};

use crate::highlight::{HighlightEvent, HighlightEventWrapper, HighlightGroup, materialize, GROUP_COUNT};

verus! {

#[verifier::external_type_specification]
#[verifier::external_body]
pub struct ExLanguage(Language);

#[verifier::external_type_specification]
#[verifier::external_body]
pub struct ExQueryError(QueryError);

#[verifier::external_type_specification]
#[verifier::external_body]
pub struct ExHighlightConfiguration(HighlightConfiguration);

/// Why the syntax colouring of a pattern could not be set up.
#[derive(Clone, Copy, Debug, PartialEq, Eq, Structural)]
pub enum HighlightError {
    Cancelled,
    InvalidLanguage,
    Unknown,
}

impl HighlightGroup {
    pub open spec fn spec_group_name(self) -> Seq<char> {
        match self {
            HighlightGroup::Flags => "flags"@,
            HighlightGroup::Anchors => "anchors"@,
            HighlightGroup::Quantifiers => "quantifiers"@,
            HighlightGroup::CharacterClass => "character_class"@,
            HighlightGroup::Operator => "operator"@,
            HighlightGroup::Escape => "escape"@,
            HighlightGroup::Group => "property"@,
        }
    }

    /// The capture names of the grammar's own highlight query are used for
    /// the categories without a query of their own.
    pub open spec fn spec_query(self) -> Option<Seq<char>> {
        match self {
            HighlightGroup::Flags => Some("[ (flags) (inline_flags_group) ] @flags"@),
            HighlightGroup::Anchors => Some(
                "[ (start_assertion) (end_assertion) (boundary_assertion) (non_boundary_assertion) ] @anchors"@,
            ),
            HighlightGroup::Quantifiers => Some(
                "[ (one_or_more) (optional) (zero_or_more) (count_quantifier) ] @quantifiers"@,
            ),
            HighlightGroup::CharacterClass => Some(
                "[ (character_class_escape) (character_class) ] @character_class"@,
            ),
            _ => None,
        }
    }

    /// The capture name under which the category is highlighted.
    pub fn group_name(&self) -> (r: &'static str)
        ensures
            r@ == self.spec_group_name(),
    {
        match self {
            HighlightGroup::Flags => "flags",
            HighlightGroup::Anchors => "anchors",
            HighlightGroup::Quantifiers => "quantifiers",
            HighlightGroup::CharacterClass => "character_class",
            HighlightGroup::Operator => "operator",
            HighlightGroup::Escape => "escape",
            HighlightGroup::Group => "property",
        }
    }

    /// The query that adds syntax nodes to this category, if it has one.
    pub fn query(&self) -> (r: Option<&'static str>)
        ensures
            r is Some <==> self.spec_query() is Some,
            r is Some ==> r->Some_0@ == self.spec_query()->Some_0,
    {
        match self {
            HighlightGroup::Flags => Some("[ (flags) (inline_flags_group) ] @flags"),
            HighlightGroup::Anchors => Some(
                "[ (start_assertion) (end_assertion) (boundary_assertion) (non_boundary_assertion) ] @anchors",
            ),
            HighlightGroup::Quantifiers => Some(
                "[ (one_or_more) (optional) (zero_or_more) (count_quantifier) ] @quantifiers",
            ),
            HighlightGroup::CharacterClass => Some(
                "[ (character_class_escape) (character_class) ] @character_class",
            ),
            _ => None,
        }
    }

    /// The capture names of all categories, in priority order.
    pub fn group_names() -> (r: Vec<&'static str>)
        ensures
            r@.len() == GROUP_COUNT,
            forall|i: int|
                0 <= i < GROUP_COUNT ==> (#[trigger] r@[i])@ == HighlightGroup::spec_from_rank(
                    i as nat,
                )->Some_0.spec_group_name(),
    {
        let mut names: Vec<&'static str> = Vec::new();
        let mut k: usize = 0;
        while k < GROUP_COUNT
            invariant
                k <= GROUP_COUNT,
                names@.len() == k,
                forall|i: int|
                    0 <= i < k ==> (#[trigger] names@[i])@ == HighlightGroup::spec_from_rank(
                        i as nat,
                    )->Some_0.spec_group_name(),
            decreases GROUP_COUNT - k,
        {
            match HighlightGroup::from_rank(k) {
                Some(g) => names.push(g.group_name()),
                None => {
                    assert(false);
                },
            }
            k = k + 1;
        }
        names
    }
}

/// The category queries of the first `k` ranks, one per line.
pub open spec fn queries_through(k: nat) -> Seq<char>
    decreases k,
{
    if k == 0 {
        Seq::empty()
    } else {
        let prev = queries_through((k - 1) as nat);
        match HighlightGroup::spec_from_rank((k - 1) as nat) {
            Some(g) => match g.spec_query() {
                Some(q) => if prev.len() == 0 {
                    q
                } else {
                    prev + "\n"@ + q
                },
                None => prev,
            },
            None => prev,
        }
    }
}

/// The category queries, one per line, in priority order.
pub fn custom_queries() -> (r: String)
    ensures
        r@ == queries_through(GROUP_COUNT as nat),
{
    let mut out = String::new();
    let mut k: usize = 0;
    while k < GROUP_COUNT
        invariant
            k <= GROUP_COUNT,
            out@ == queries_through(k as nat),
        decreases GROUP_COUNT - k,
    {
        match HighlightGroup::from_rank(k) {
            Some(g) => match g.query() {
                Some(q) => {
                    if !out.as_str().is_empty() {
                        out.append("\n");
                    }
                    out.append(q);
                },
                None => {},
            },
            None => {},
        }
        k = k + 1;
    }
    out
}

/// The capture names of the categories, in priority order.
pub open spec fn rank_names() -> Seq<Seq<char>> {
    Seq::new(
        GROUP_COUNT as nat,
        |i: int| HighlightGroup::spec_from_rank(i as nat)->Some_0.spec_group_name(),
    )
}

/// Whether the grammar's own highlight query, followed by the line `custom`,
/// compiles for the regular-expression grammar.
pub uninterp spec fn highlight_query_ok(custom: Seq<char>) -> bool;

/// The highlight events of `source` under the grammar's own highlight query
/// followed by `custom`, with captures reported by their index in `names`;
/// or why highlighting could not start.
pub uninterp spec fn regex_highlight(
    custom: Seq<char>,
    names: Seq<Seq<char>>,
    source: Seq<u8>,
) -> Result<Seq<HighlightEvent>, HighlightError>;

/// A highlighter for regular expressions, with the category queries it was
/// built from and the capture names it reports by index.
pub struct RegexHighlighter {
    config: HighlightConfiguration,
    custom: Ghost<Seq<char>>,
    names: Ghost<Seq<Seq<char>>>,
}

impl RegexHighlighter {
    /// The queries added to the grammar's own highlight query.
    pub closed spec fn custom(&self) -> Seq<char> {
        self.custom@
    }

    /// The capture names, reported by their index.
    pub closed spec fn names(&self) -> Seq<Seq<char>> {
        self.names@
    }
}

/// A tree-sitter grammar, with the ABI version it was generated for.
pub struct Grammar {
    language: Language,
    abi: Ghost<nat>,
}

impl Grammar {
    /// The ABI version the grammar was generated for.
    pub closed spec fn abi(&self) -> nat {
        self.abi@
    }
}

/// Relies on tree_sitter_regex::LANGUAGE: the grammar of regular expressions,
/// generated for ABI version 15 (its src/parser.c sets `.abi_version` to
/// `LANGUAGE_VERSION`, 15).
#[verifier::external_body]
fn regex_language() -> (r: Grammar)
    ensures
        r.abi() == 15,
{
    Grammar { language: tree_sitter_regex::LANGUAGE.into(), abi: Ghost(15) }
}

/// Relies on tree_sitter::Parser::set_language: it accepts a grammar exactly
/// when its ABI version lies in `MIN_COMPATIBLE_LANGUAGE_VERSION..=LANGUAGE_VERSION`,
/// which is 13..=15 in this tree-sitter.
#[verifier::external_body]
fn language_supported(grammar: &Grammar) -> (r: bool)
    ensures
        r == (13 <= grammar.abi() && grammar.abi() <= 15),
{
    tree_sitter::Parser::new().set_language(&grammar.language).is_ok()
}

/// Relies on HighlightConfiguration::new: compiles the grammar's own highlight
/// query (tree_sitter_regex::HIGHLIGHTS_QUERY) followed by the line `custom`,
/// with neither injections nor locals; no capture name is configured yet.
#[verifier::external_body]
fn new_configuration(custom: &str) -> (r: Result<RegexHighlighter, QueryError>)
    ensures
        r is Ok <==> highlight_query_ok(custom@),
        r matches Ok(c) ==> c.custom() == custom@ && c.names() == Seq::<Seq<char>>::empty(),
{
    let highlights = format!("{}\n{}", tree_sitter_regex::HIGHLIGHTS_QUERY, custom);
    match HighlightConfiguration::new(tree_sitter_regex::LANGUAGE.into(), "regex", &highlights, "", "") {
        Ok(config) => Ok(RegexHighlighter { config, custom: Ghost(custom@), names: Ghost(Seq::empty()) }),
        Err(e) => Err(e),
    }
}

/// Relies on HighlightConfiguration::configure: a capture is reported as the
/// index of the name it matches in `names`.
#[verifier::external_body]
fn configure(config: &mut RegexHighlighter, names: &Vec<&'static str>)
    ensures
        final(config).custom() == old(config).custom(),
        final(config).names() == names@.map_values(|n: &'static str| n@),
{
    config.config.configure(names);
    config.names = Ghost(names@.map_values(|n: &'static str| n@));
}

/// A pattern never embeds another language.
fn no_injection<'a>(_language_name: &str) -> (r: Option<&'a HighlightConfiguration>)
    ensures
        r is None,
{
    None
}

/// Relies on tree_sitter_highlight::Highlighter::highlight: the highlight
/// event stream of the source, with a failure in the stream kept as a
/// `Failed` event.
#[verifier::external_body]
fn highlight_events(highlighter: &RegexHighlighter, source: &[u8]) -> (r: Result<
    Vec<HighlightEvent>,
    HighlightError,
>)
    ensures
        match r {
            Ok(v) => regex_highlight(highlighter.custom(), highlighter.names(), source@) == Ok::<
                Seq<HighlightEvent>,
                HighlightError,
            >(v@),
            Err(e) => regex_highlight(highlighter.custom(), highlighter.names(), source@) == Err::<
                Seq<HighlightEvent>,
                HighlightError,
            >(e),
        },
{
    let mut ts = Highlighter::new();
    let events = match ts.highlight(&highlighter.config, source, None, |n| no_injection(n)) {
        Ok(events) => events,
        Err(TsError::Cancelled) => return Err(HighlightError::Cancelled),
        Err(TsError::InvalidLanguage) => return Err(HighlightError::InvalidLanguage),
        Err(TsError::Unknown) => return Err(HighlightError::Unknown),
    };
    Ok(events.map(|e| match e {
        Ok(Ev::HighlightStart(h)) => HighlightEvent::Start(h.0),
        Ok(Ev::Source { start, end }) => HighlightEvent::Source { start, end },
        Ok(Ev::HighlightEnd) => HighlightEvent::End,
        Err(_) => HighlightEvent::Failed,
    }).collect())
}

/// Sets up the highlighter for regular expressions with the category queries,
/// reporting each category's captures by its rank.
pub fn highlight_configuration() -> (r: Result<RegexHighlighter, HighlightError>)
    ensures
        r matches Ok(c) ==> c.custom() == queries_through(GROUP_COUNT as nat) && c.names()
            == rank_names(),
        r is Ok <==> highlight_query_ok(queries_through(GROUP_COUNT as nat)),
        r matches Err(e) ==> e == HighlightError::Unknown,
{
    let language = regex_language();
    if !language_supported(&language) {
        return Err(HighlightError::InvalidLanguage);
    }
    let custom = custom_queries();
    let mut config = match new_configuration(custom.as_str()) {
        Ok(c) => c,
        Err(_) => return Err(HighlightError::Unknown),
    };
    let names = HighlightGroup::group_names();
    configure(&mut config, &names);
    assert(config.names() =~= rank_names());
    Ok(config)
}

/// The highlight events of a pattern's bytes with the category queries and
/// names, or why they could not be had.
pub open spec fn pattern_highlight(source: Seq<u8>) -> Result<Seq<HighlightEvent>, HighlightError> {
    if highlight_query_ok(queries_through(GROUP_COUNT as nat)) {
        regex_highlight(queries_through(GROUP_COUNT as nat), rank_names(), source)
    } else {
        Err(HighlightError::Unknown)
    }
}

impl HighlightEventWrapper {
    /// Tokenizes the pattern and starts at the beginning of its highlight
    /// events. It succeeds exactly when the highlighter yields events for the
    /// pattern.
    pub fn new(re: &[u8]) -> (r: Result<Self, HighlightError>)
        ensures
            match pattern_highlight(re@) {
                Ok(events) => r matches Ok(w) && w.wf() && w.events() == events && w.rest()
                    == materialize(events),
                Err(e) => r == Err::<Self, HighlightError>(e),
            },
    {
        let config = match highlight_configuration() {
            Ok(c) => c,
            Err(e) => return Err(e),
        };
        match highlight_events(&config, re) {
            Ok(events) => Ok(Self::from_events(events)),
            Err(e) => Err(e),
        }
    }
}

} // verus!
