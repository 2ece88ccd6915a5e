use vstd::prelude::*;
use vstd::string::*;

use regex::{Error as RegexError, Regex};

use crate::text::byte_len;

verus! {

#[verifier::external_type_specification]
#[verifier::external_body]
pub struct ExRegex(Regex);

#[verifier::external_type_specification]
#[verifier::external_body]
pub struct ExRegexError(RegexError);

/// Whether a pattern is accepted by the regular-expression engine.
pub uninterp spec fn regex_compiles(pattern: Seq<char>) -> bool;

/// Every span lies within a text of the given byte length and does not end
/// before it starts.
pub open spec fn spans_within(lists: Seq<Vec<(usize, usize)>>, len: nat) -> bool {
    forall|m: int, g: int|
        0 <= m < lists.len() && 0 <= g < lists[m]@.len() ==> {
            let (s, e) = #[trigger] lists[m]@[g];
            s <= e && e <= len
        }
}

/// The value stored under the first entry with the given key.
pub open spec fn lookup<V>(entries: Seq<(String, V)>, key: Seq<char>) -> Option<V>
    decreases entries.len(),
{
    if entries.len() == 0 {
        None
    } else if entries[0].0@ == key {
        Some(entries[0].1)
    } else {
        lookup(entries.drop_first(), key)
    }
}

proof fn lemma_lookup_found<V>(entries: Seq<(String, V)>, key: Seq<char>, i: int)
    requires
        0 <= i < entries.len(),
        entries[i].0@ == key,
        forall|j: int| 0 <= j < i ==> entries[j].0@ != key,
    ensures
        lookup(entries, key) == Some(entries[i].1),
    decreases i,
{
    if i > 0 {
        lemma_lookup_found(entries.drop_first(), key, i - 1);
    }
}

proof fn lemma_lookup_absent<V>(entries: Seq<(String, V)>, key: Seq<char>)
    requires
        forall|j: int| 0 <= j < entries.len() ==> entries[j].0@ != key,
    ensures
        lookup(entries, key) is None,
    decreases entries.len(),
{
    if entries.len() > 0 {
        lemma_lookup_absent(entries.drop_first(), key);
    }
}

proof fn lemma_lookup_push<V>(entries: Seq<(String, V)>, e: (String, V), key: Seq<char>)
    ensures
        lookup(entries.push(e), key) == if lookup(entries, key) is Some {
            lookup(entries, key)
        } else if e.0@ == key {
            Some(e.1)
        } else {
            None
        },
    decreases entries.len(),
{
    reveal_with_fuel(lookup, 2);
    if entries.len() > 0 {
        assert(entries.push(e)[0] == entries[0]);
        assert(entries.push(e).drop_first() =~= entries.drop_first().push(e));
        lemma_lookup_push(entries.drop_first(), e, key);
    } else {
        assert(entries.push(e)[0] == e);
        assert(entries.push(e).drop_first() =~= Seq::<(String, V)>::empty());
    }
}

proof fn lemma_lookup_update<V>(entries: Seq<(String, V)>, i: int, v: V, key: Seq<char>)
    requires
        0 <= i < entries.len(),
        forall|j: int| 0 <= j < i ==> entries[j].0@ != entries[i].0@,
    ensures
        lookup(entries.update(i, (entries[i].0, v)), key) == if entries[i].0@ == key {
            Some(v)
        } else {
            lookup(entries, key)
        },
    decreases i,
{
    let u = entries.update(i, (entries[i].0, v));
    if i > 0 {
        assert(u[0] == entries[0]);
        assert(u.drop_first() =~= entries.drop_first().update(i - 1, (entries[i].0, v)));
        assert forall|j: int| 0 <= j < i - 1 implies (#[trigger] entries.drop_first()[j]).0@
            != entries.drop_first()[i - 1].0@ by {
            assert(entries.drop_first()[j] == entries[j + 1]);
        }
        lemma_lookup_update(entries.drop_first(), i - 1, v, key);
    } else {
        assert(u[0] == (entries[0].0, v));
        assert(u.drop_first() =~= entries.drop_first());
    }
}

proof fn lemma_lookup_in<V>(entries: Seq<(String, V)>, key: Seq<char>)
    ensures
        lookup(entries, key) matches Some(v) ==> exists|i: int|
            0 <= i < entries.len() && (#[trigger] entries[i]).0@ == key && entries[i].1 == v,
    decreases entries.len(),
{
    if entries.len() > 0 && entries[0].0@ != key {
        lemma_lookup_in(entries.drop_first(), key);
        if lookup(entries, key) is Some {
            let i = choose|i: int|
                0 <= i < entries.drop_first().len() && (#[trigger] entries.drop_first()[i]).0@ == key
                    && entries.drop_first()[i].1 == lookup(entries, key)->Some_0;
            assert(entries[i + 1] == entries.drop_first()[i]);
        }
    }
}

/// Finds the first entry with the given key.
fn find<V>(entries: &Vec<(String, V)>, key: &String) -> (r: Option<usize>)
    ensures
        match r {
            Some(i) => i < entries@.len() && entries@[i as int].0@ == key@ && lookup(entries@, key@)
                == Some(entries@[i as int].1) && (forall|j: int|
                0 <= j < i ==> entries@[j].0@ != key@),
            None => lookup(entries@, key@) is None && forall|j: int|
                0 <= j < entries@.len() ==> entries@[j].0@ != key@,
        },
{
    let mut i: usize = 0;
    while i < entries.len()
        invariant
            i <= entries@.len(),
            forall|j: int| 0 <= j < i ==> entries@[j].0@ != key@,
        decreases entries@.len() - i,
    {
        if entries[i].0 == *key {
            proof {
                lemma_lookup_found(entries@, key@, i as int);
            }
            return Some(i);
        }
        i = i + 1;
    }
    proof {
        lemma_lookup_absent(entries@, key@);
    }
    None
}

/// The spans of the groups that took part in a match, in group order.
pub open spec fn present(groups: Seq<Option<(usize, usize)>>) -> Seq<(usize, usize)>
    decreases groups.len(),
{
    if groups.len() == 0 {
        Seq::empty()
    } else {
        match groups.last() {
            Some(span) => present(groups.drop_last()).push(span),
            None => present(groups.drop_last()),
        }
    }
}

proof fn lemma_present_within(groups: Seq<Option<(usize, usize)>>, len: nat)
    requires
        forall|g: int|
            0 <= g < groups.len() && #[trigger] groups[g] is Some ==> groups[g]->Some_0.0
                <= groups[g]->Some_0.1 && groups[g]->Some_0.1 <= len,
    ensures
        forall|g: int|
            0 <= g < present(groups).len() ==> (#[trigger] present(groups)[g]).0 <= present(
                groups,
            )[g].1 && present(groups)[g].1 <= len,
    decreases groups.len(),
{
    if groups.len() > 0 {
        lemma_present_within(groups.drop_last(), len);
        assert forall|g: int| 0 <= g < groups.len() - 1 && #[trigger] groups.drop_last()[g] is Some
            implies groups.drop_last()[g]->Some_0.0 <= groups.drop_last()[g]->Some_0.1
            && groups.drop_last()[g]->Some_0.1 <= len by {
            assert(groups.drop_last()[g] == groups[g]);
        }
        let p = present(groups.drop_last());
        assert forall|g: int| 0 <= g < present(groups).len() implies (#[trigger] present(groups)[g]).0
            <= present(groups)[g].1 && present(groups)[g].1 <= len by {
            if g < p.len() {
                assert(present(groups)[g] == p[g]);
            } else {
                assert(groups[groups.len() - 1] is Some);
            }
        }
    }
}

/// Keeps the spans of the groups that took part in the match.
pub fn flatten_groups(groups: &Vec<Option<(usize, usize)>>) -> (r: Vec<(usize, usize)>)
    ensures
        r@ == present(groups@),
{
    let mut out: Vec<(usize, usize)> = Vec::new();
    let mut i: usize = 0;
    while i < groups.len()
        invariant
            i <= groups@.len(),
            out@ == present(groups@.take(i as int)),
        decreases groups@.len() - i,
    {
        assert(groups@.take(i as int + 1).drop_last() =~= groups@.take(i as int));
        match groups[i] {
            Some(span) => out.push(span),
            None => {},
        }
        i = i + 1;
    }
    assert(groups@.take(i as int) =~= groups@);
    out
}

/// What the engine reports for each successive non-overlapping match of
/// `pattern` in `hay`: the spans of its groups, `None` for a group that took
/// no part.
pub uninterp spec fn regex_captures(pattern: Seq<char>, hay: Seq<char>) -> Seq<
    Seq<Option<(usize, usize)>>,
>;

/// The capture lists of every match of `pattern` in `hay`: the spans of the
/// groups that took part, in group order, the whole match first.
pub open spec fn matched_spans(pattern: Seq<char>, hay: Seq<char>) -> Seq<Seq<(usize, usize)>> {
    regex_captures(pattern, hay).map_values(|g: Seq<Option<(usize, usize)>>| present(g))
}

/// The capture lists as sequences.
pub open spec fn deep(lists: Seq<Vec<(usize, usize)>>) -> Seq<Seq<(usize, usize)>> {
    lists.map_values(|l: Vec<(usize, usize)>| l@)
}

/// The message of the error that the engine reports for a pattern that does
/// not compile.
pub uninterp spec fn regex_error_text(pattern: Seq<char>) -> Seq<char>;

/// Why a pattern did not compile, with the pattern text.
pub struct CompileError {
    error: RegexError,
    pattern: Ghost<Seq<char>>,
}

impl CompileError {
    /// The pattern text that did not compile.
    pub closed spec fn pattern(&self) -> Seq<char> {
        self.pattern@
    }

    /// The engine's message for the error.
    pub fn message(&self) -> (r: String)
        ensures
            r@ == regex_error_text(self.pattern()),
    {
        error_message(self)
    }
}

/// Relies on regex::Error's Display: the message of a compile error, which
/// depends on the pattern alone.
#[verifier::external_body]
fn error_message(e: &CompileError) -> (r: String)
    ensures
        r@ == regex_error_text(e.pattern()),
{
    e.error.to_string()
}

/// A compiled pattern, with the pattern text it was compiled from.
pub struct CompiledRegex {
    regex: Regex,
    pattern: Ghost<Seq<char>>,
}

impl CompiledRegex {
    /// The pattern text this was compiled from.
    pub closed spec fn pattern(&self) -> Seq<char> {
        self.pattern@
    }

    /// Compiles a pattern, or says why it does not compile.
    pub fn new(pattern: &str) -> (r: Result<CompiledRegex, CompileError>)
        ensures
            r is Ok <==> regex_compiles(pattern@),
            r matches Ok(c) ==> c.pattern() == pattern@,
            r matches Err(e) ==> e.pattern() == pattern@,
    {
        compile(pattern)
    }
}

/// Relies on regex::Regex::new: compiles the pattern, or says why it cannot.
#[verifier::external_body]
fn compile(pattern: &str) -> (r: Result<CompiledRegex, CompileError>)
    ensures
        r is Ok <==> regex_compiles(pattern@),
        r matches Ok(c) ==> c.pattern() == pattern@,
        r matches Err(e) ==> e.pattern() == pattern@,
{
    match Regex::new(pattern) {
        Ok(regex) => Ok(CompiledRegex { regex, pattern: Ghost(pattern@) }),
        Err(error) => Err(CompileError { error, pattern: Ghost(pattern@) }),
    }
}

/// Relies on regex::Regex::captures_iter: each successive non-overlapping
/// match, as the spans of its groups (`None` for a group that took no part).
/// A span's start is never after its end, and both are byte offsets into the
/// haystack.
#[verifier::external_body]
fn captures_of(re: &CompiledRegex, hay: &str) -> (r: Vec<Vec<Option<(usize, usize)>>>)
    ensures
        r@.map_values(|m: Vec<Option<(usize, usize)>>| m@) == regex_captures(re.pattern(), hay@),
        forall|m: int, g: int|
            0 <= m < r@.len() && 0 <= g < r@[m]@.len() && #[trigger] r@[m]@[g] is Some ==> {
                let (s, e) = r@[m]@[g]->Some_0;
                s <= e && e <= hay.spec_bytes().len()
            },
{
    let regex = &re.regex;
    regex.captures_iter(hay).map(|c| c.iter().map(|m| m.map(|m| (m.start(), m.end()))).collect()).collect()
}

/// The capture lists of each test string tried against one compiled pattern.
pub struct CapturesCache {
    entries: Vec<(String, Vec<Vec<(usize, usize)>>)>,
}

impl CapturesCache {
    /// The capture lists stored for a test string.
    pub closed spec fn stored(&self, hay: Seq<char>) -> Option<Seq<Vec<(usize, usize)>>> {
        match lookup(self.entries@, hay) {
            Some(lists) => Some(lists@),
            None => None,
        }
    }

    /// Every stored entry holds the capture lists of `pattern` in its test string.
    pub closed spec fn wf_for(&self, pattern: Seq<char>) -> bool {
        forall|i: int|
            0 <= i < self.entries@.len() ==> {
                &&& spans_within(#[trigger] self.entries@[i].1@, byte_len(self.entries@[i].0@))
                &&& deep(self.entries@[i].1@) == matched_spans(pattern, self.entries@[i].0@)
            }
    }

    pub fn new() -> (r: Self)
        ensures
            forall|pattern: Seq<char>| r.wf_for(pattern),
            forall|hay: Seq<char>| r.stored(hay) is None,
    {
        CapturesCache { entries: Vec::new() }
    }

    /// The capture lists of every match of `re` in `hay`, computed on the
    /// first request for `hay` and stored from then on.
    pub fn get_or_init(&mut self, re: &CompiledRegex, hay: &str) -> (r: &Vec<Vec<(usize, usize)>>)
        requires
            old(self).wf_for(re.pattern()),
        ensures
            final(self).wf_for(re.pattern()),
            deep(r@) == matched_spans(re.pattern(), hay@),
            final(self).stored(hay@) == Some(r@),
            spans_within(r@, byte_len(hay@)),
            old(self).stored(hay@) is Some ==> *final(self) == *old(self),
            forall|h: Seq<char>| h != hay@ ==> final(self).stored(h) == old(self).stored(h),
    {
        let key = String::from_str(hay);
        match find(&self.entries, &key) {
            Some(i) => {
                proof {
                    assert(spans_within(self.entries@[i as int].1@, byte_len(self.entries@[i as int].0@)));
                    assert(deep(self.entries@[i as int].1@) == matched_spans(re.pattern(), self.entries@[i as int].0@));
                }
                &self.entries[i].1
            },
            None => {
                let found = captures_of(re, hay);
                let mut lists: Vec<Vec<(usize, usize)>> = Vec::new();
                let mut m: usize = 0;
                while m < found.len()
                    invariant
                        m <= found@.len(),
                        lists@.len() == m,
                        forall|k: int| 0 <= k < m ==> #[trigger] lists@[k]@ == present(found@[k]@),
                    decreases found@.len() - m,
                {
                    lists.push(flatten_groups(&found[m]));
                    m = m + 1;
                }
                proof {
                    assert forall|a: int, g: int|
                        0 <= a < lists@.len() && 0 <= g < lists@[a]@.len() implies {
                            let (s, e) = #[trigger] lists@[a]@[g];
                            s <= e && e <= byte_len(hay@)
                        } by {
                        lemma_present_within(found@[a]@, byte_len(hay@));
                    }
                    assert(deep(lists@) =~= matched_spans(re.pattern(), hay@));
                }
                let ghost before = self.entries@;
                self.entries.push((key, lists));
                proof {
                    assert forall|h: Seq<char>| h != hay@ implies lookup(self.entries@, h) == lookup(before, h) by {
                        lemma_lookup_push(before, self.entries@.last(), h);
                    }
                    lemma_lookup_push(before, self.entries@.last(), hay@);
                    assert(self.entries@[before.len() as int] == self.entries@.last());
                    assert(key@ == hay@);
                }
                let n = self.entries.len() - 1;
                &self.entries[n].1
            },
        }
    }
}

/// What is stored for one pattern: the compiled pattern with the capture
/// lists of each test string tried against it, or why it did not compile.
pub type CompiledEntry = Result<(CompiledRegex, CapturesCache), CompileError>;

/// The outcome of each pattern tried in a session, compiled once, and for each
/// pattern that compiled, the capture lists of each test string, computed once.
/// Nothing is ever evicted.
pub struct Cache {
    entries: Vec<(String, CompiledEntry)>,
}

impl Cache {
    pub closed spec fn wf(&self) -> bool {
        forall|i: int|
            0 <= i < self.entries@.len() ==> {
                &&& (#[trigger] self.entries@[i]).1 is Ok <==> regex_compiles(self.entries@[i].0@)
                &&& self.entries@[i].1 is Ok ==> self.entries@[i].1->Ok_0.0.pattern()
                    == self.entries@[i].0@
                &&& self.entries@[i].1 is Err ==> self.entries@[i].1->Err_0.pattern()
                    == self.entries@[i].0@
                &&& self.entries@[i].1 is Ok ==> self.entries@[i].1->Ok_0.1.wf_for(
                    self.entries@[i].0@,
                )
            }
    }

    /// The compile outcome stored for a pattern, if it was tried.
    pub closed spec fn compiled(&self, pattern: Seq<char>) -> Option<
        Result<CompiledRegex, CompileError>,
    > {
        match lookup(self.entries@, pattern) {
            Some(Ok((re, _))) => Some(Ok(re)),
            Some(Err(e)) => Some(Err(e)),
            None => None,
        }
    }

    /// What a lookup of the pair returns from the stored entries, if the pair
    /// was looked up before: the capture lists, or the pattern's compile error.
    pub closed spec fn outcome(&self, pattern: Seq<char>, hay: Seq<char>) -> Option<
        Result<Seq<Vec<(usize, usize)>>, CompileError>,
    > {
        match lookup(self.entries@, pattern) {
            Some(Ok((_, c))) => match c.stored(hay) {
                Some(lists) => Some(Ok(lists)),
                None => None,
            },
            Some(Err(e)) => Some(Err(e)),
            None => None,
        }
    }

    /// What a lookup of `pattern` and `hay` that took the cache from `old` to
    /// `new` and returned `r` guarantees. `r` is `Ok` exactly when the pattern
    /// compiles, and is what the cache now holds for the pair: the capture
    /// lists of every match of the pattern in `hay`, or the pattern's compile
    /// error, the same error on every lookup of the pattern. A pair looked
    /// up before leaves the cache as it was; a pattern tried before keeps its
    /// compile outcome; no other pattern's entries change, nor, once the
    /// pattern was tried, the entries of its other test strings.
    pub open spec fn lookup_post(
        old: Cache,
        new: Cache,
        pattern: Seq<char>,
        hay: Seq<char>,
        r: Result<Seq<Vec<(usize, usize)>>, CompileError>,
    ) -> bool {
        &&& new.wf()
        &&& r is Ok <==> regex_compiles(pattern)
        &&& new.outcome(pattern, hay) == Some(r)
        &&& r matches Ok(lists) ==> spans_within(lists, byte_len(hay))
        &&& r matches Ok(lists) ==> deep(lists) == matched_spans(pattern, hay)
        &&& r matches Err(e) ==> e.pattern() == pattern
        &&& old.compiled(pattern) matches Some(Err(e)) ==> r == Err::<
            Seq<Vec<(usize, usize)>>,
            CompileError,
        >(e)
        &&& old.outcome(pattern, hay) is Some ==> forall|p: Seq<char>, h: Seq<char>|
            new.outcome(p, h) == old.outcome(p, h)
        &&& old.compiled(pattern) is Some ==> new.compiled(pattern) == old.compiled(pattern)
        &&& new.compiled(pattern) is Some
        &&& forall|p: Seq<char>| p != pattern ==> new.compiled(p) == old.compiled(p)
        &&& forall|p: Seq<char>, h: Seq<char>|
            p != pattern ==> new.outcome(p, h) == old.outcome(p, h)
        &&& forall|h: Seq<char>|
            h != hay && old.compiled(pattern) is Some ==> new.outcome(pattern, h) == old.outcome(
                pattern,
                h,
            )
    }

    pub fn new() -> (r: Self)
        ensures
            r.wf(),
            forall|p: Seq<char>| r.compiled(p) is None,
            forall|p: Seq<char>, h: Seq<char>| r.outcome(p, h) is None,
    {
        Cache { entries: Vec::new() }
    }

    /// The capture lists of every match of the pattern `re` in `hay`, or the
    /// error that `re` does not compile with. A pattern is compiled on its
    /// first lookup only, and the capture lists of a pair are computed on its
    /// first lookup only; later lookups return what was stored.
    pub fn get_or_init(&mut self, re: &str, hay: &str) -> (r: Result<
        &Vec<Vec<(usize, usize)>>,
        &CompileError,
    >)
        requires
            old(self).wf(),
        ensures
            Cache::lookup_post(
                *old(self),
                *final(self),
                re@,
                hay@,
                match r {
                    Ok(lists) => Ok(lists@),
                    Err(e) => Err(*e),
                },
            ),
    {
        let key = String::from_str(re);
        let i = match find(&self.entries, &key) {
            Some(i) => i,
            None => {
                let compiled = match compile(re) {
                    Ok(r) => Ok((r, CapturesCache::new())),
                    Err(e) => Err(e),
                };
                let ghost before = self.entries@;
                self.entries.push((key, compiled));
                proof {
                    assert forall|p: Seq<char>| lookup(self.entries@, p) == if p == re@ {
                        Some(self.entries@.last().1)
                    } else {
                        lookup(before, p)
                    } by {
                        lemma_lookup_push(before, self.entries@.last(), p);
                        if p == re@ {
                            lemma_lookup_absent(before, p);
                        }
                    }
                    assert forall|j: int| 0 <= j < self.entries@.len() - 1 implies self.entries@[j].0@ != re@ by {
                        assert(self.entries@[j] == before[j]);
                    }
                    assert(self.entries@[self.entries@.len() - 1] == self.entries@.last());
                }
                self.entries.len() - 1
            },
        };
        let ghost mid = *self;
        let ghost mid_entries = self.entries@;
        proof {
            lemma_lookup_found(self.entries@, re@, i as int);
            assert forall|x: Seq<(String, CompiledEntry)>, p: Seq<char>|
                x.len() == mid_entries.len() && x[i as int].0 == mid_entries[i as int].0 && (forall|j: int|
                    0 <= j < x.len() && j != i ==> x[j] == mid_entries[j]) implies #[trigger] lookup(x, p)
                == if p == re@ {
                Some(x[i as int].1)
            } else {
                lookup(mid_entries, p)
            } by {
                assert(x =~= mid_entries.update(i as int, (mid_entries[i as int].0, x[i as int].1)));
                lemma_lookup_update(mid_entries, i as int, x[i as int].1, p);
            }
        }
        let entry = &mut self.entries[i];
        match &mut entry.1 {
            Ok((compiled, captures)) => Ok(captures.get_or_init(compiled, hay)),
            Err(e) => Err(e),
        }
    }
}

/// What a cache holds agrees with the engine: a pattern stored as compiled
/// compiles, one stored with an error does not and keeps that error's
/// pattern, and the capture lists stored for a pair are the pattern's
/// matches in the test string.
pub proof fn lemma_stored_agrees(c: Cache, pattern: Seq<char>, hay: Seq<char>)
    requires
        c.wf(),
    ensures
        c.compiled(pattern) matches Some(Ok(re)) ==> regex_compiles(pattern) && re.pattern()
            == pattern,
        c.compiled(pattern) matches Some(Err(e)) ==> !regex_compiles(pattern) && e.pattern()
            == pattern,
        c.outcome(pattern, hay) matches Some(Ok(lists)) ==> regex_compiles(pattern) && deep(lists)
            == matched_spans(pattern, hay),
        c.outcome(pattern, hay) matches Some(Err(e)) ==> !regex_compiles(pattern),
{
    lemma_lookup_in(c.entries@, pattern);
    if lookup(c.entries@, pattern) is Some {
        let i = choose|i: int|
            0 <= i < c.entries@.len() && (#[trigger] c.entries@[i]).0@ == pattern
                && c.entries@[i].1 == lookup(c.entries@, pattern)->Some_0;
        if c.entries@[i].1 is Ok {
            let cc = c.entries@[i].1->Ok_0.1;
            lemma_lookup_in(cc.entries@, hay);
            if lookup(cc.entries@, hay) is Some {
                let j = choose|j: int|
                    0 <= j < cc.entries@.len() && (#[trigger] cc.entries@[j]).0@ == hay
                        && cc.entries@[j].1 == lookup(cc.entries@, hay)->Some_0;
                assert(deep(cc.entries@[j].1@) == matched_spans(pattern, cc.entries@[j].0@));
            }
        }
    }
}

/// Looking up the same pattern and test string twice in a row returns the
/// same result the second time, and the second lookup leaves the cache as
/// the first one left it.
pub proof fn lemma_repeat_lookup(
    c0: Cache,
    c1: Cache,
    c2: Cache,
    pattern: Seq<char>,
    hay: Seq<char>,
    r1: Result<Seq<Vec<(usize, usize)>>, CompileError>,
    r2: Result<Seq<Vec<(usize, usize)>>, CompileError>,
)
    requires
        Cache::lookup_post(c0, c1, pattern, hay, r1),
        Cache::lookup_post(c1, c2, pattern, hay, r2),
    ensures
        r2 == r1,
        forall|p: Seq<char>, h: Seq<char>| c2.outcome(p, h) == c1.outcome(p, h),
        forall|p: Seq<char>| c2.compiled(p) == c1.compiled(p),
{
}

/// Looking up a pattern that was tried before with another test string keeps
/// the stored compile outcome of the pattern: it is not compiled again.
pub proof fn lemma_new_hay_keeps_compiled(
    c0: Cache,
    c1: Cache,
    c2: Cache,
    pattern: Seq<char>,
    hay1: Seq<char>,
    hay2: Seq<char>,
    r1: Result<Seq<Vec<(usize, usize)>>, CompileError>,
    r2: Result<Seq<Vec<(usize, usize)>>, CompileError>,
)
    requires
        Cache::lookup_post(c0, c1, pattern, hay1, r1),
        Cache::lookup_post(c1, c2, pattern, hay2, r2),
    ensures
        c2.compiled(pattern) == c1.compiled(pattern),
        forall|p: Seq<char>| c2.compiled(p) == c1.compiled(p),
        r1 is Ok <==> r2 is Ok,
{
}

} // verus!
