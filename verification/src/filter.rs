//! Selecting the events to report: by kind of change, and by glob patterns
//! on the path or the file name.

use vstd::prelude::*;
use crate::changes::{ChangeOp, EventView, FileEvent};
use crate::paths::file_name_facts;
use crate::text::{eq_ignore_ascii_case, str_eq_ignore_ascii_case};

verus! {

#[verifier::external_type_specification]
#[verifier::external_body]
pub struct ExGlobPattern(glob::Pattern);

#[verifier::external_type_specification]
#[verifier::external_body]
pub struct ExGlobPatternError(glob::PatternError);

/// Whether `glob::Pattern::new` accepts the pattern text.
pub uninterp spec fn glob_pattern_valid(pattern: Seq<char>) -> bool;

/// Whether the compiled pattern matches the text under `glob::Pattern::matches`
/// (default options: case-sensitive, `*` crosses separators).
pub uninterp spec fn glob_matches(pattern: Seq<char>, text: Seq<char>) -> bool;

/// Whether `p` holds two `*` in a row.
pub open spec fn has_double_star(p: Seq<char>) -> bool {
    exists|i: int| 0 <= i && i + 1 < p.len() && #[trigger] p[i] == '*' && p[i + 1] == '*'
}

/// Patterns whose validity glob decides alike on every platform: glob asks
/// which characters are separators only for a `**`, and `\` is a
/// separator on some platforms only.
pub open spec fn compiles_alike(p: Seq<char>) -> bool {
    !p.contains('\\') || !has_double_star(p)
}

/// Patterns that glob matches against any text alike on every platform: no
/// separator and no `**` in the pattern.
pub open spec fn plain_pattern(p: Seq<char>) -> bool {
    &&& !p.contains('/')
    &&& !p.contains('\\')
    &&& !has_double_star(p)
}

/// Pattern and text on which glob's verdict is the same on every platform:
/// neither holds a backslash; or the pattern holds no `**` and never sets
/// one separator against the other (no `\` in the pattern with a `/` in
/// the text, no `/` in the pattern with a `\` in the text).
pub open spec fn matches_alike(p: Seq<char>, t: Seq<char>) -> bool {
    ||| (!p.contains('\\') && !t.contains('\\'))
    ||| {
        &&& !has_double_star(p)
        &&& !(p.contains('\\') && t.contains('/'))
        &&& !(p.contains('/') && t.contains('\\'))
    }
}

/// `glob::Pattern::new`: compiles a glob pattern.
///
/// Whether a pattern compiles is stated for patterns without a backslash or
/// without a `**`: glob consults the platform's separators only when it
/// checks a `**`, and a backslash is a separator on some platforms only. For
/// a pattern with both, nothing is stated.
#[verifier::external_body]
fn compile_glob(source: &str) -> (r: Result<glob::Pattern, glob::PatternError>)
    ensures
        compiles_alike(source@) ==> (r is Ok <==> glob_pattern_valid(source@)),
{
    glob::Pattern::new(source)
}

/// A glob pattern together with the text it was compiled from.
pub struct GlobPattern {
    source: String,
    compiled: glob::Pattern,
}

impl View for GlobPattern {
    type V = Seq<char>;

    closed spec fn view(&self) -> Seq<char> {
        self.source@
    }
}

/// `glob::Pattern::matches` on the pattern compiled from `pattern@`.
///
/// The result is stated where glob decides alike on every platform: neither
/// the pattern nor the text holds a backslash; or the pattern holds no `**`
/// and no separator of the pattern meets the other separator in the text.
/// glob consults the platform's separators only for a `**` and when it
/// compares two characters that are both separators, and `\` is a
/// separator on some platforms only. For other inputs nothing is stated. A
/// `GlobPattern` is only ever built by `GlobPattern::new`, from its own
/// source text.
#[verifier::external_body]
fn glob_match(pattern: &GlobPattern, text: &str) -> (r: bool)
    ensures
        matches_alike(pattern@, text@) ==> r == glob_matches(pattern@, text@),
{
    pattern.compiled.matches(text)
}

impl GlobPattern {
    /// Compiles `source`; `None` where glob refuses it.
    pub fn new(source: &str) -> (r: Option<GlobPattern>)
        ensures
            r matches Some(p) ==> p@ == source@,
            compiles_alike(source@) ==> (r is Some <==> glob_pattern_valid(source@)),
    {
        match compile_glob(source) {
            Ok(compiled) => Some(GlobPattern { source: String::from_str(source), compiled }),
            Err(_) => None,
        }
    }

    /// The text the pattern was compiled from.
    pub fn as_str(&self) -> (s: &str)
        ensures
            s@ == self@,
    {
        self.source.as_str()
    }
}

/// Why a filter could not be built.
#[derive(Debug)]
pub enum FilterError {
    /// An inclusion pattern is not a valid glob.
    InvalidInclude { pattern: String },
    /// An exclusion pattern is not a valid glob.
    InvalidExclude { pattern: String },
}

/// Which events to report.
pub struct EventFilter {
    /// Kinds of change to report (compared ignoring ASCII case); all when absent.
    pub ops: Option<Vec<String>>,
    /// Patterns of which one must match the path or the file name; none asked when absent.
    pub include_patterns: Option<Vec<GlobPattern>>,
    /// Patterns none of which may match the path or the file name.
    pub exclude_patterns: Option<Vec<GlobPattern>>,
}

pub struct FilterView {
    pub ops: Option<Seq<Seq<char>>>,
    pub includes: Option<Seq<Seq<char>>>,
    pub excludes: Option<Seq<Seq<char>>>,
}

pub open spec fn string_views(v: Seq<String>) -> Seq<Seq<char>> {
    v.map_values(|s: String| s@)
}

pub open spec fn pattern_views(v: Seq<GlobPattern>) -> Seq<Seq<char>> {
    v.map_values(|p: GlobPattern| p@)
}

pub open spec fn opt_strings(o: Option<Vec<String>>) -> Option<Seq<Seq<char>>> {
    match o {
        Some(v) => Some(string_views(v@)),
        None => None,
    }
}

pub open spec fn opt_patterns(o: Option<Vec<GlobPattern>>) -> Option<Seq<Seq<char>>> {
    match o {
        Some(v) => Some(pattern_views(v@)),
        None => None,
    }
}

impl View for EventFilter {
    type V = FilterView;

    open spec fn view(&self) -> FilterView {
        FilterView {
            ops: opt_strings(self.ops),
            includes: opt_patterns(self.include_patterns),
            excludes: opt_patterns(self.exclude_patterns),
        }
    }
}

/// Whether glob decides the validity of every pattern of `v` alike on every platform.
pub open spec fn every_compiles_alike(v: Seq<Seq<char>>) -> bool {
    forall|i: int| 0 <= i < v.len() ==> compiles_alike(#[trigger] v[i])
}

/// Whether glob decides the validity of every pattern alike on every platform.
pub open spec fn all_compile_alike(ps: Option<Seq<Seq<char>>>) -> bool {
    match ps {
        Some(v) => every_compiles_alike(v),
        None => true,
    }
}

/// Whether every pattern of `v` compiles.
pub open spec fn every_valid(v: Seq<Seq<char>>) -> bool {
    forall|i: int| 0 <= i < v.len() ==> glob_pattern_valid(#[trigger] v[i])
}

/// Whether every pattern compiles.
pub open spec fn all_valid(ps: Option<Seq<Seq<char>>>) -> bool {
    match ps {
        Some(v) => every_valid(v),
        None => true,
    }
}

/// The pattern at `i` is the first of `v` that does not compile.
pub open spec fn first_invalid_at(v: Seq<Seq<char>>, i: int) -> bool {
    &&& 0 <= i < v.len()
    &&& !glob_pattern_valid(v[i])
    &&& forall|j: int| 0 <= j < i ==> glob_pattern_valid(#[trigger] v[j])
}

/// `p` is the first pattern of `v` that does not compile.
pub open spec fn first_invalid_in(v: Seq<Seq<char>>, p: Seq<char>) -> bool {
    exists|i: int| #[trigger] first_invalid_at(v, i) && v[i] == p
}

/// `p` is the first pattern of `ps` that does not compile.
pub open spec fn first_invalid(ps: Option<Seq<Seq<char>>>, p: Seq<char>) -> bool {
    match ps {
        Some(v) => first_invalid_in(v, p),
        None => false,
    }
}

/// `p` is one of the patterns of `ps`.
pub open spec fn one_of(ps: Option<Seq<Seq<char>>>, p: Seq<char>) -> bool {
    match ps {
        Some(v) => v.contains(p),
        None => false,
    }
}

fn compile_all(patterns: &Vec<String>) -> (r: Result<Vec<GlobPattern>, String>)
    ensures
        r matches Ok(ps) ==> pattern_views(ps@) == string_views(patterns@),
        r matches Err(p) ==> string_views(patterns@).contains(p@),
        every_compiles_alike(string_views(patterns@)) ==> {
            &&& r is Ok <==> every_valid(string_views(patterns@))
            &&& r matches Err(p) ==> first_invalid_in(string_views(patterns@), p@)
        },
{
    let ghost names = string_views(patterns@);
    let mut out: Vec<GlobPattern> = Vec::new();
    let mut i: usize = 0;
    while i < patterns.len()
        invariant
            names == string_views(patterns@),
            i <= patterns@.len(),
            pattern_views(out@) == names.take(i as int),
            every_compiles_alike(names) ==> forall|j: int|
                0 <= j < i ==> glob_pattern_valid(#[trigger] names[j]),
        decreases patterns@.len() - i,
    {
        let src = patterns[i].as_str();
        assert(names[i as int] == src@);
        match GlobPattern::new(src) {
            Some(p) => {
                let ghost before = out@;
                let ghost pv = p@;
                out.push(p);
                assert(out@ == before.push(p));
                assert(pattern_views(out@) =~= pattern_views(before).push(pv));
                assert(names.take(i + 1) =~= names.take(i as int).push(names[i as int]));
            },
            None => {
                assert(names.contains(src@));
                proof {
                    if every_compiles_alike(names) {
                        assert(compiles_alike(names[i as int]));
                        assert(!glob_pattern_valid(names[i as int]));
                        assert(first_invalid_at(names, i as int));
                        assert(first_invalid_in(names, src@));
                    }
                }
                return Err(patterns[i].clone());
            },
        }
        i = i + 1;
    }
    assert(names.take(patterns@.len() as int) =~= names);
    Ok(out)
}

/// Whether one of the listed kinds equals the event's kind, ignoring ASCII case.
pub open spec fn ops_accept(ops: Option<Seq<Seq<char>>>, op: ChangeOp) -> bool {
    match ops {
        Some(v) => lists_op(v, op),
        None => true,
    }
}

/// Whether `v` lists the kind of change, ignoring ASCII case.
pub open spec fn lists_op(v: Seq<Seq<char>>, op: ChangeOp) -> bool {
    exists|i: int| 0 <= i < v.len() && eq_ignore_ascii_case(#[trigger] v[i], op.name())
}

/// Whether the pattern matches the path or the file name.
pub open spec fn pattern_hits(p: Seq<char>, path: Seq<char>, name: Seq<char>) -> bool {
    glob_matches(p, path) || glob_matches(p, name)
}

/// Whether some pattern of `v` hits the path or the file name.
pub open spec fn some_hit(v: Seq<Seq<char>>, path: Seq<char>, name: Seq<char>) -> bool {
    exists|i: int| 0 <= i < v.len() && pattern_hits(#[trigger] v[i], path, name)
}

/// Whether the filter reports an event whose path has the file name `name`:
/// its kind is listed (when kinds are given), no exclusion pattern hits the
/// path or the name, and some inclusion pattern does (when inclusion
/// patterns are given).
pub open spec fn filter_accepts(f: FilterView, e: EventView, name: Seq<char>) -> bool {
    &&& ops_accept(f.ops, e.op)
    &&& match f.excludes {
        Some(x) => !some_hit(x, e.path, name),
        None => true,
    }
    &&& match f.includes {
        Some(x) => some_hit(x, e.path, name),
        None => true,
    }
}

/// Whether glob decides every pattern of `v` alike on every platform, on
/// both the path and the name.
pub open spec fn every_matches_alike(v: Seq<Seq<char>>, path: Seq<char>, name: Seq<char>) -> bool {
    forall|i: int|
        0 <= i < v.len() ==> matches_alike(#[trigger] v[i], path) && matches_alike(v[i], name)
}

/// Whether glob decides all the filter's patterns alike on every platform,
/// on the event's path and file name.
pub open spec fn patterns_alike(f: FilterView, path: Seq<char>, name: Seq<char>) -> bool {
    &&& match f.includes {
        Some(v) => every_matches_alike(v, path, name),
        None => true,
    }
    &&& match f.excludes {
        Some(v) => every_matches_alike(v, path, name),
        None => true,
    }
}

/// No exclusion pattern on which glob decides alike matches the path or
/// the file name.
pub open spec fn no_known_exclusion_hit(f: FilterView, path: Seq<char>, name: Seq<char>) -> bool {
    match f.excludes {
        Some(x) => forall|i: int|
            0 <= i < x.len() ==> (matches_alike(#[trigger] x[i], path) ==> !glob_matches(x[i], path))
                && (matches_alike(x[i], name) ==> !glob_matches(x[i], name)),
        None => true,
    }
}

/// No exclusion pattern on which glob decides alike matches the path.
pub open spec fn no_exclusion_hits_path(f: FilterView, path: Seq<char>) -> bool {
    match f.excludes {
        Some(x) => forall|i: int|
            0 <= i < x.len() ==> (matches_alike(#[trigger] x[i], path) ==> !glob_matches(x[i], path)),
        None => true,
    }
}

/// What the filter's verdict `r` on an event with file name `name` is known to be.
pub open spec fn verdict_facts(f: FilterView, e: EventView, name: Seq<char>, r: bool) -> bool {
    &&& r ==> ops_accept(f.ops, e.op)
    &&& r ==> no_known_exclusion_hit(f, e.path, name)
    &&& patterns_alike(f, e.path, name) ==> r == filter_accepts(f, e, name)
    &&& f.includes is None && f.excludes is None ==> r == ops_accept(f.ops, e.op)
}

impl EventFilter {
    /// Builds a filter; fails on the first inclusion pattern that does not
    /// compile, else on the first exclusion pattern that does not. The kinds
    /// are kept as given.
    pub fn new(
        ops: Option<Vec<String>>,
        includes: Option<Vec<String>>,
        excludes: Option<Vec<String>>,
    ) -> (r: Result<EventFilter, FilterError>)
        ensures
            r matches Ok(f) ==> f@ == (FilterView {
                ops: opt_strings(ops),
                includes: opt_strings(includes),
                excludes: opt_strings(excludes),
            }),
            r matches Err(FilterError::InvalidInclude { pattern }) ==> one_of(
                opt_strings(includes),
                pattern@,
            ),
            r matches Err(FilterError::InvalidExclude { pattern }) ==> one_of(
                opt_strings(excludes),
                pattern@,
            ),
            all_compile_alike(opt_strings(includes)) && all_compile_alike(opt_strings(excludes))
                ==> {
                &&& r is Ok <==> all_valid(opt_strings(includes)) && all_valid(
                    opt_strings(excludes),
                )
                &&& r matches Err(FilterError::InvalidInclude { pattern }) ==> first_invalid(
                    opt_strings(includes),
                    pattern@,
                )
                &&& r matches Err(FilterError::InvalidExclude { pattern }) ==> all_valid(
                    opt_strings(includes),
                ) && first_invalid(opt_strings(excludes), pattern@)
            },
    {
        let include_patterns = match &includes {
            Some(v) => {
                assert(opt_strings(includes) == Some(string_views(v@)));
                match compile_all(v) {
                    Ok(ps) => Some(ps),
                    Err(p) => {
                        return Err(FilterError::InvalidInclude { pattern: p });
                    },
                }
            },
            None => None,
        };
        let exclude_patterns = match &excludes {
            Some(v) => {
                assert(opt_strings(excludes) == Some(string_views(v@)));
                match compile_all(v) {
                    Ok(ps) => Some(ps),
                    Err(p) => {
                        return Err(FilterError::InvalidExclude { pattern: p });
                    },
                }
            },
            None => None,
        };
        Ok(EventFilter { ops, include_patterns, exclude_patterns })
    }

    /// Whether the event is to be reported, given the file name at the end
    /// of its path.
    pub fn matches_named(&self, event: &FileEvent, name: &str) -> (r: bool)
        ensures
            verdict_facts(self@, event@, name@, r),
    {
        let op_name = event.op.as_str();
        match &self.ops {
            Some(ops) => {
                let mut k: usize = 0;
                let mut found = false;
                while k < ops.len()
                    invariant
                        k <= ops@.len(),
                        op_name@ == event.op.name(),
                        found <==> lists_op(string_views(ops@).take(k as int), event.op),
                    decreases ops@.len() - k,
                {
                    let ghost sv = string_views(ops@);
                    assert(sv[k as int] == ops@[k as int]@);
                    let eq = str_eq_ignore_ascii_case(ops[k].as_str(), op_name);
                    if eq {
                        found = true;
                    }
                    proof {
                        let t = sv.take(k + 1);
                        assert(t[k as int] == sv[k as int]);
                        assert forall|j: int| 0 <= j < k implies t[j] == sv.take(k as int)[j] by {}
                        if lists_op(t, event.op) {
                            let j = choose|j: int|
                                0 <= j < t.len() && eq_ignore_ascii_case(#[trigger] t[j], event.op.name());
                            if j < k {
                                assert(sv.take(k as int)[j] == t[j]);
                            }
                        }
                        if lists_op(sv.take(k as int), event.op) {
                            let j = choose|j: int|
                                0 <= j < k && eq_ignore_ascii_case(
                                    #[trigger] sv.take(k as int)[j],
                                    event.op.name(),
                                );
                            assert(t[j] == sv.take(k as int)[j]);
                        }
                        if eq {
                            assert(eq_ignore_ascii_case(t[k as int], event.op.name()));
                        }
                    }
                    k = k + 1;
                }
                assert(string_views(ops@).take(ops@.len() as int) =~= string_views(ops@));
                assert(self@.ops == Some(string_views(ops@)));
                if !found {
                    return false;
                }
                assert(ops_accept(self@.ops, event.op));
            },
            None => {},
        }
        if self.exclude_patterns.is_none() && self.include_patterns.is_none() {
            return true;
        }
        let path = event.path.as_str();
        match &self.exclude_patterns {
            Some(excludes) => {
                assert(self@.excludes == Some(pattern_views(excludes@)));
                if any_hit(excludes, path, name) {
                    return false;
                }
            },
            None => {},
        }
        match &self.include_patterns {
            Some(includes) => {
                assert(self@.includes == Some(pattern_views(includes@)));
                any_hit(includes, path, name)
            },
            None => true,
        }
    }

    /// Whether the event is to be reported.
    pub fn matches(&self, event: &FileEvent) -> (r: bool)
        ensures
            r ==> ops_accept(self@.ops, event.op),
            r ==> no_exclusion_hits_path(self@, event.path@),
            exists|name: Seq<char>|
                file_name_facts(event.path@, name) && verdict_facts(self@, event@, name, r),
    {
        let name = event.filename();
        let r = self.matches_named(event, name.as_str());
        assert(file_name_facts(event.path@, name@) && verdict_facts(self@, event@, name@, r));
        r
    }
}

/// Whether some pattern matches the path or the name.
fn any_hit(patterns: &Vec<GlobPattern>, path: &str, name: &str) -> (r: bool)
    ensures
        every_matches_alike(pattern_views(patterns@), path@, name@) ==> (r <==> some_hit(
            pattern_views(patterns@),
            path@,
            name@,
        )),
        !r ==> forall|i: int|
            0 <= i < patterns@.len() ==> (matches_alike(
                #[trigger] pattern_views(patterns@)[i],
                path@,
            ) ==> !glob_matches(pattern_views(patterns@)[i], path@)) && (matches_alike(
                pattern_views(patterns@)[i],
                name@,
            ) ==> !glob_matches(pattern_views(patterns@)[i], name@)),
{
    let ghost pv = pattern_views(patterns@);
    let mut k: usize = 0;
    while k < patterns.len()
        invariant
            pv == pattern_views(patterns@),
            k <= patterns@.len(),
            forall|j: int|
                0 <= j < k ==> (matches_alike(#[trigger] pv[j], path@) ==> !glob_matches(
                    pv[j],
                    path@,
                )) && (matches_alike(pv[j], name@) ==> !glob_matches(pv[j], name@)),
        decreases patterns@.len() - k,
    {
        let p = &patterns[k];
        assert(pv[k as int] == p@);
        assert(pv.len() == patterns@.len());
        let on_path = glob_match(p, path);
        let on_name = glob_match(p, name);
        if on_path || on_name {
            proof {
                if every_matches_alike(pv, path@, name@) {
                    assert(matches_alike(pv[k as int], path@) && matches_alike(pv[k as int], name@));
                    assert(pattern_hits(pv[k as int], path@, name@));
                }
            }
            return true;
        }
        k = k + 1;
    }
    false
}

/// Whether every pattern given is plain (no separator, no `**`).
pub open spec fn all_plain(ps: Option<Seq<Seq<char>>>) -> bool {
    match ps {
        Some(v) => forall|i: int| 0 <= i < v.len() ==> plain_pattern(#[trigger] v[i]),
        None => true,
    }
}

/// Plain patterns are decided alike on every platform, whatever the path and
/// the file name: on such a filter the verdict is exactly `filter_accepts`.
pub proof fn lemma_plain_patterns_decide_alike(f: FilterView, path: Seq<char>, name: Seq<char>)
    requires
        all_plain(f.includes),
        all_plain(f.excludes),
    ensures
        patterns_alike(f, path, name),
{
}

/// An exclusion pattern that glob matches against the event's path keeps the
/// event from being reported, whatever the pattern holds, wherever glob
/// decides alike on every platform.
pub proof fn lemma_excluded_path_never_reported(
    f: FilterView,
    e: EventView,
    name: Seq<char>,
    r: bool,
    i: int,
)
    requires
        verdict_facts(f, e, name, r),
        f.excludes matches Some(x) && 0 <= i < x.len() && matches_alike(x[i], e.path)
            && glob_matches(x[i], e.path),
    ensures
        !r,
{
    let x = f.excludes->0;
    if r {
        assert(no_known_exclusion_hit(f, e.path, name));
        assert(matches_alike(x[i], e.path) ==> !glob_matches(x[i], e.path));
    }
}

/// An event of a listed kind whose path an inclusion pattern matches, and
/// that no exclusion pattern hits, is reported.
pub proof fn lemma_included_path_reported(
    f: FilterView,
    e: EventView,
    name: Seq<char>,
    r: bool,
    i: int,
)
    requires
        verdict_facts(f, e, name, r),
        patterns_alike(f, e.path, name),
        ops_accept(f.ops, e.op),
        f.includes matches Some(x) && 0 <= i < x.len() && glob_matches(x[i], e.path),
        match f.excludes {
            Some(x) => !some_hit(x, e.path, name),
            None => true,
        },
    ensures
        r,
{
    let x = f.includes->0;
    assert(pattern_hits(x[i], e.path, name));
    assert(some_hit(x, e.path, name));
}

/// An event that an exclusion pattern hits is never reported, whatever the
/// inclusion patterns say.
pub proof fn lemma_exclusion_outweighs_inclusion(
    f: FilterView,
    e: EventView,
    name: Seq<char>,
    i: int,
)
    requires
        f.excludes matches Some(x) && 0 <= i < x.len() && pattern_hits(x[i], e.path, name),
    ensures
        !filter_accepts(f, e, name),
{
    let x = f.excludes->0;
    assert(some_hit(x, e.path, name)) by {
        assert(pattern_hits(x[i], e.path, name));
    }
}

/// A filter without kinds and without patterns reports every event.
pub proof fn lemma_no_criteria_reports_all(e: EventView, name: Seq<char>)
    ensures
        filter_accepts(FilterView { ops: None, includes: None, excludes: None }, e, name),
{
}

/// Listing a kind in any mix of ASCII cases selects the events of that kind.
pub proof fn lemma_listed_kind_is_accepted(v: Seq<Seq<char>>, i: int, op: ChangeOp)
    requires
        0 <= i < v.len(),
        eq_ignore_ascii_case(v[i], op.name()),
    ensures
        ops_accept(Some(v), op),
{
    assert(eq_ignore_ascii_case(v[i], op.name()));
}

/// An empty list of kinds, or an empty list of inclusion patterns, reports
/// nothing; an empty list of exclusion patterns is the same as none.
pub proof fn lemma_empty_lists(f: FilterView, e: EventView, name: Seq<char>)
    ensures
        filter_accepts(FilterView { ops: Some(Seq::empty()), ..f }, e, name) == false,
        filter_accepts(FilterView { includes: Some(Seq::empty()), ..f }, e, name) == false,
        filter_accepts(FilterView { excludes: Some(Seq::empty()), ..f }, e, name)
            == filter_accepts(FilterView { excludes: None, ..f }, e, name),
{
}

/// Whether every entry of `a` is an entry of `b`.
pub open spec fn listed_within(a: Seq<Seq<char>>, b: Seq<Seq<char>>) -> bool {
    forall|i: int| 0 <= i < a.len() ==> b.contains(#[trigger] a[i])
}

/// Whether `g` asks no more of an event than `f`: its kinds and inclusion
/// patterns (where given) include those of `f` (which then must be given),
/// and its exclusion patterns are among those of `f`.
pub open spec fn widens(f: FilterView, g: FilterView) -> bool {
    &&& g.ops matches Some(go) ==> (f.ops matches Some(fo) && listed_within(fo, go))
    &&& g.includes matches Some(gi) ==> (f.includes matches Some(fi) && listed_within(fi, gi))
    &&& g.excludes matches Some(ge) ==> (match f.excludes {
        Some(fe) => listed_within(ge, fe),
        None => ge.len() == 0,
    })
}

/// Widening the kinds or the inclusion patterns, or dropping exclusion
/// patterns, never turns away an event that was reported.
pub proof fn lemma_widening_keeps_reports(f: FilterView, g: FilterView, e: EventView, name: Seq<char>)
    requires
        widens(f, g),
        filter_accepts(f, e, name),
    ensures
        filter_accepts(g, e, name),
{
    if let Some(go) = g.ops {
        let fo = f.ops->0;
        let i = choose|i: int| 0 <= i < fo.len() && eq_ignore_ascii_case(#[trigger] fo[i], e.op.name());
        assert(go.contains(fo[i]));
        let j = choose|j: int| 0 <= j < go.len() && go[j] == fo[i];
        assert(eq_ignore_ascii_case(go[j], e.op.name()));
    }
    if let Some(gi) = g.includes {
        let fi = f.includes->0;
        let i = choose|i: int| 0 <= i < fi.len() && pattern_hits(#[trigger] fi[i], e.path, name);
        assert(gi.contains(fi[i]));
        let j = choose|j: int| 0 <= j < gi.len() && gi[j] == fi[i];
        assert(pattern_hits(gi[j], e.path, name));
    }
    if let Some(ge) = g.excludes {
        if some_hit(ge, e.path, name) {
            let j = choose|j: int| 0 <= j < ge.len() && pattern_hits(#[trigger] ge[j], e.path, name);
            let fe = f.excludes->0;
            assert(fe.contains(ge[j]));
            let i = choose|i: int| 0 <= i < fe.len() && fe[i] == ge[j];
            assert(pattern_hits(fe[i], e.path, name));
        }
    }
}

} // verus!
