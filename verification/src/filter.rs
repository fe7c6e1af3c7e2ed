//! Filtering issues by their metadata.
//!
//! A filter is a list of conditions that must all hold. A condition names a
//! piece of metadata, says what its value must be like, and may be negated.
//! Written as text, a condition is `key`, `key=value` or `key~part`, with a
//! `!` before it where it is negated.

use vstd::prelude::*;
use vstd::string::StrSliceExecFns;
use vstd::string::StringExecFns;

use crate::accumulation::{
    after_all, held_values, lookup, value_views, AccView, Accumulator, AccumulatorMap,
    MultiAccumulator,
};
use crate::error::Kind;
use crate::message::block::trailer_views;
use crate::message::metadata::{
    fresh_entries, issue_status_spec, issue_type_spec, MetadataSpecification, ToMap,
};
use crate::reference::RemotePriorization;
use crate::text::{chars_of, contains_run, has_run, same_text};
use crate::trailer::{
    free_of_line_breaks, has_line_break, key_len, scan_key, value_of_text, value_text, Trailer,
    TrailerValue, TrailerView, ValueView,
};

verus! {

/// What a matcher is to a contract.
pub enum MatcherView {
    Any,
    Equals(ValueView),
    Contains(Seq<char>),
}

/// What the value of a piece of metadata must be like.
#[derive(Debug, Clone)]
pub enum ValueMatcher {
    /// Any value will do.
    Any,
    /// The value must be this one.
    Equals(TrailerValue),
    /// The text of the value must hold this text.
    Contains(String),
}

impl View for ValueMatcher {
    type V = MatcherView;

    open spec fn view(&self) -> MatcherView {
        match self {
            ValueMatcher::Any => MatcherView::Any,
            ValueMatcher::Equals(v) => MatcherView::Equals(v@),
            ValueMatcher::Contains(s) => MatcherView::Contains(s@),
        }
    }
}

/// Whether `value` is as `matcher` wants it.
pub open spec fn matches(matcher: MatcherView, value: ValueView) -> bool {
    match matcher {
        MatcherView::Any => true,
        MatcherView::Equals(wanted) => value == wanted,
        MatcherView::Contains(part) => contains_run(value_text(value), part),
    }
}

/// Whether one of `values` is as `matcher` wants it.
pub open spec fn matches_any(matcher: MatcherView, values: Seq<ValueView>) -> bool {
    exists|i: int| 0 <= i < values.len() && matches(matcher, #[trigger] values[i])
}

impl ValueMatcher {
    /// Whether `value` is as the matcher wants it.
    pub fn matches(&self, value: &TrailerValue) -> (b: bool)
        ensures
            b == matches(self@, value@),
    {
        match self {
            ValueMatcher::Any => true,
            ValueMatcher::Equals(wanted) => *value == *wanted,
            ValueMatcher::Contains(part) => {
                let text = value.to_string();
                has_run(text.as_str(), part.as_str())
            },
        }
    }

    /// Whether one of `values` is as the matcher wants it.
    pub fn matches_any(&self, values: &Vec<TrailerValue>) -> (b: bool)
        ensures
            b == matches_any(self@, value_views(values@)),
    {
        let mut i: usize = 0;
        while i < values.len()
            invariant
                i <= values.len(),
                forall|j: int| 0 <= j < i ==> !matches(self@, #[trigger] value_views(values@)[j]),
            decreases values.len() - i,
        {
            if self.matches(&values[i]) {
                proof {
                    assert(matches(self@, value_views(values@)[i as int]));
                }
                return true;
            }
            i += 1;
        }
        false
    }

    /// A second matcher that wants the same.
    pub fn duplicate(&self) -> (m: ValueMatcher)
        ensures
            m@ == self@,
    {
        match self {
            ValueMatcher::Any => ValueMatcher::Any,
            ValueMatcher::Equals(v) => ValueMatcher::Equals(v.duplicate()),
            ValueMatcher::Contains(s) => ValueMatcher::Contains(s.clone()),
        }
    }
}

/// Whether what `entries` hold for `key` is as `matcher` wants it. Where
/// they hold nothing for the key it is not, whatever the matcher.
pub open spec fn entries_match(
    entries: Seq<(Seq<char>, AccView)>,
    key: Seq<char>,
    matcher: MatcherView,
) -> bool {
    match lookup(entries, key) {
        Some(acc) => matches_any(matcher, held_values(acc)),
        None => false,
    }
}

/// A condition on the trailers of an issue.
pub struct TrailerFilter<'a> {
    trailer: MetadataSpecification<'a>,
    matcher: ValueMatcher,
}

impl<'a> TrailerFilter<'a> {
    /// The key of the trailers that the condition is about.
    pub closed spec fn key(&self) -> Seq<char> {
        self.trailer.key@
    }

    /// What the value must be like.
    pub closed spec fn matcher(&self) -> MatcherView {
        self.matcher@
    }

    /// The piece of metadata that the condition is about.
    pub closed spec fn specification(&self) -> MetadataSpecification<'a> {
        self.trailer
    }

    /// The condition that the values gathered for `trailer` hold one that
    /// `matcher` accepts.
    pub fn new(trailer: MetadataSpecification<'a>, matcher: ValueMatcher) -> (r: TrailerFilter<'a>)
        ensures
            r.specification() == trailer,
            r.key() == trailer.key@,
            r.matcher() == matcher@,
    {
        TrailerFilter { trailer, matcher }
    }

    /// Whether the condition holds of what was gathered.
    pub fn matches(&self, accumulator: &AccumulatorMap) -> (b: bool)
        ensures
            b == entries_match(accumulator.entries(), self.key(), self.matcher()),
    {
        proof {
            accumulator.lemma_entry(self.trailer.key@);
        }
        let values = match accumulator.get(self.trailer.key) {
            Some(acc) => acc.duplicate().into_values(),
            None => {
                let none: Vec<TrailerValue> = Vec::new();
                proof {
                    assert(value_views(none@) =~= Seq::<ValueView>::empty());
                }
                none
            },
        };
        self.matcher.matches_any(&values)
    }

    /// The piece of metadata that the condition is about.
    pub fn spec(&self) -> (r: &MetadataSpecification<'a>)
        ensures
            *r == self.specification(),
    {
        &self.trailer
    }
}

/// What a condition is to a contract.
pub struct FilterSpecView {
    pub key: Seq<char>,
    pub matcher: MatcherView,
    pub negated: bool,
}

/// A condition as it is written: the name of a piece of metadata, what its
/// value must be like, and whether the condition is negated.
#[derive(Debug, Clone)]
pub struct FilterSpec {
    /// The name of the metadata.
    pub key: String,
    /// What the value must be like.
    pub matcher: ValueMatcher,
    /// Whether the condition holds where the matcher does not accept.
    pub negated: bool,
}

impl View for FilterSpec {
    type V = FilterSpecView;

    open spec fn view(&self) -> FilterSpecView {
        FilterSpecView { key: self.key@, matcher: self.matcher@, negated: self.negated }
    }
}

/// The condition that `s` stands for, if it stands for one. A `!` at the
/// start negates. A key follows, one or more letters, digits and hyphens.
/// Nothing more asks for any value, `=` and a value for that value, `~` and
/// a text for a value that holds the text. The value or text ends where `s`
/// ends and holds no line break.
pub open spec fn parse_filter_spec(s: Seq<char>) -> Option<FilterSpecView> {
    let negated = s.len() > 0 && s[0] == '!';
    let body = if negated {
        s.drop_first()
    } else {
        s
    };
    let k = key_len(body) as int;
    if k == 0 {
        None
    } else if k == body.len() {
        Some(FilterSpecView { key: body, matcher: MatcherView::Any, negated })
    } else if has_line_break(body.skip(k + 1)) {
        None
    } else if body[k] == '=' {
        Some(
            FilterSpecView {
                key: body.take(k),
                matcher: MatcherView::Equals(value_of_text(body.skip(k + 1))),
                negated,
            },
        )
    } else if body[k] == '~' {
        Some(
            FilterSpecView {
                key: body.take(k),
                matcher: MatcherView::Contains(body.skip(k + 1)),
                negated,
            },
        )
    } else {
        None
    }
}

impl FilterSpec {
    /// Reads a condition. Text that is none is handed back in the error.
    pub fn from_str(s: &str) -> (r: Result<FilterSpec, Kind>)
        ensures
            match r {
                Ok(spec) => parse_filter_spec(s@) == Some(spec@),
                Err(Kind::MalformedFilterSpec(text)) => parse_filter_spec(s@) is None && text@
                    == s@,
                Err(_) => false,
            },
    {
        let v = chars_of(s);
        let negated = v.len() > 0 && v[0] == '!';
        let start: usize = if negated {
            1
        } else {
            0
        };
        let ghost body = v@.skip(start as int);
        proof {
            if negated {
                assert(body =~= v@.drop_first());
            } else {
                assert(body =~= v@);
            }
        }
        let end = scan_key(&v, start);
        if end == start {
            return Err(Kind::MalformedFilterSpec(String::from_str(s)));
        }
        proof {
            assert(body.take(end - start) =~= v@.subrange(start as int, end as int));
        }
        let key = String::from_str(s.substring_char(start, end));
        if end == v.len() {
            proof {
                assert(body.take(end - start) =~= body);
            }
            return Ok(FilterSpec { key, matcher: ValueMatcher::Any, negated });
        }
        proof {
            assert(body.skip(end - start + 1) =~= v@.skip(end + 1));
            assert(v@.skip(end + 1) =~= v@.subrange(end + 1, v@.len() as int));
            assert(body[end - start] == v@[end as int]);
        }
        if !free_of_line_breaks(&v, end + 1) {
            return Err(Kind::MalformedFilterSpec(String::from_str(s)));
        }
        let value = s.substring_char(end + 1, v.len());
        if v[end] == '=' {
            Ok(FilterSpec { key, matcher: ValueMatcher::Equals(TrailerValue::from_slice(value)), negated })
        } else if v[end] == '~' {
            Ok(FilterSpec { key, matcher: ValueMatcher::Contains(String::from_str(value)), negated })
        } else {
            Err(Kind::MalformedFilterSpec(String::from_str(s)))
        }
    }
}

/// What a filter can ask about an issue besides its trailers.
#[derive(Clone, Copy, Debug, PartialEq, Eq, Structural)]
pub enum NonTrailer {
    /// The name of the author of the initial message.
    ReporterName,
    /// The e-mail address of the author of the initial message.
    ReporterEMail,
}

/// Who reported an issue: the author of its initial message. A name or an
/// address that the message does not give is empty.
#[derive(Debug, Clone)]
pub struct Reporter {
    pub name: String,
    pub email: String,
}

impl NonTrailer {
    /// The value that is asked about, for the reporter of an issue.
    pub open spec fn value_for(self, name: Seq<char>, email: Seq<char>) -> ValueView {
        match self {
            NonTrailer::ReporterName => value_of_text(name),
            NonTrailer::ReporterEMail => value_of_text(email),
        }
    }

    /// The value that is asked about, for the reporter of an issue.
    pub fn for_issue(&self, reporter: &Reporter) -> (v: TrailerValue)
        ensures
            v@ == self.value_for(reporter.name@, reporter.email@),
    {
        match self {
            NonTrailer::ReporterName => TrailerValue::from_slice(reporter.name.as_str()),
            NonTrailer::ReporterEMail => TrailerValue::from_slice(reporter.email.as_str()),
        }
    }
}

/// What a metadata filter consists of, to a contract: its conditions on the
/// reporter and its conditions on trailers.
pub struct FilterView {
    pub nontrailers: Seq<(NonTrailer, MatcherView, bool)>,
    pub trailers: Seq<(Seq<char>, MatcherView, bool)>,
}

/// Whether the reporter meets each of `conditions`: for each, the matcher
/// accepts the value asked about exactly if the condition is not negated.
pub open spec fn reporter_passes(
    conditions: Seq<(NonTrailer, MatcherView, bool)>,
    name: Seq<char>,
    email: Seq<char>,
) -> bool {
    forall|i: int|
        0 <= i < conditions.len() ==> {
            let c = #[trigger] conditions[i];
            matches(c.1, c.0.value_for(name, email)) != c.2
        }
}

/// Whether what was gathered meets each of `conditions`: for each, the
/// matcher accepts one of the values gathered for the key exactly if the
/// condition is not negated.
pub open spec fn trailers_pass(
    conditions: Seq<(Seq<char>, MatcherView, bool)>,
    entries: Seq<(Seq<char>, AccView)>,
) -> bool {
    forall|i: int|
        0 <= i < conditions.len() ==> {
            let c = #[trigger] conditions[i];
            entries_match(entries, c.0, c.1) != c.2
        }
}

/// The pieces of metadata that `conditions` are about.
pub open spec fn condition_specs(conditions: Seq<(TrailerFilter<'_>, bool)>) -> Seq<
    MetadataSpecification<'_>,
> {
    conditions.map_values(|c: (TrailerFilter<'_>, bool)| c.0.specification())
}

/// Whether `specs` are the pieces of metadata that `conditions` are about,
/// one for each condition and with its key, and of each the latest value
/// counts.
pub open spec fn specs_fit(
    specs: Seq<MetadataSpecification<'_>>,
    conditions: Seq<(Seq<char>, MatcherView, bool)>,
) -> bool {
    &&& specs.len() == conditions.len()
    &&& forall|i: int|
        0 <= i < specs.len() ==> (#[trigger] specs[i]).key@ == conditions[i].0 && specs[i].accumulation
            == crate::accumulation::AccumulationPolicy::Latest
}

/// What is gathered from `trailers` for the pieces of metadata `specs`:
/// a map with an entry for each, given the trailers in turn.
pub open spec fn gathered(
    specs: Seq<MetadataSpecification<'_>>,
    trailers: Seq<TrailerView>,
) -> Seq<(Seq<char>, AccView)> {
    after_all::<AccumulatorMap>(fresh_entries(specs), trailers)
}

/// A filter on the metadata of issues.
pub struct MetadataFilter<'a> {
    prios: &'a RemotePriorization,
    nontrailers: Vec<(NonTrailer, ValueMatcher, bool)>,
    trailers: Vec<(TrailerFilter<'a>, bool)>,
}

/// What conditions on the reporter are to a contract.
pub open spec fn nontrailer_views(conditions: Seq<(NonTrailer, ValueMatcher, bool)>) -> Seq<
    (NonTrailer, MatcherView, bool),
> {
    conditions.map_values(|c: (NonTrailer, ValueMatcher, bool)| (c.0, c.1@, c.2))
}

/// What conditions on trailers are to a contract.
pub open spec fn trailer_filter_views(conditions: Seq<(TrailerFilter<'_>, bool)>) -> Seq<
    (Seq<char>, MatcherView, bool),
> {
    conditions.map_values(|c: (TrailerFilter<'_>, bool)| (c.0.key(), c.0.matcher(), c.1))
}

/// The conditions that `specs` give rise to, where each names a piece of
/// metadata that is known: `status` and `type` are about trailers,
/// `reporter-name` and `reporter-email` about the reporter.
pub open spec fn filter_of(specs: Seq<FilterSpecView>) -> Option<FilterView>
    decreases specs.len(),
{
    if specs.len() == 0 {
        Some(FilterView { nontrailers: Seq::empty(), trailers: Seq::empty() })
    } else {
        match filter_of(specs.drop_last()) {
            None => None,
            Some(f) => {
                let s = specs.last();
                if s.key == "status"@ {
                    Some(
                        FilterView {
                            nontrailers: f.nontrailers,
                            trailers: f.trailers.push(("Dit-status"@, s.matcher, s.negated)),
                        },
                    )
                } else if s.key == "type"@ {
                    Some(
                        FilterView {
                            nontrailers: f.nontrailers,
                            trailers: f.trailers.push(("Dit-type"@, s.matcher, s.negated)),
                        },
                    )
                } else if s.key == "reporter-name"@ {
                    Some(
                        FilterView {
                            nontrailers: f.nontrailers.push(
                                (NonTrailer::ReporterName, s.matcher, s.negated),
                            ),
                            trailers: f.trailers,
                        },
                    )
                } else if s.key == "reporter-email"@ {
                    Some(
                        FilterView {
                            nontrailers: f.nontrailers.push(
                                (NonTrailer::ReporterEMail, s.matcher, s.negated),
                            ),
                            trailers: f.trailers,
                        },
                    )
                } else {
                    None
                }
            },
        }
    }
}

/// The views of the conditions in `specs`.
pub open spec fn filter_spec_views(specs: Seq<FilterSpec>) -> Seq<FilterSpecView> {
    specs.map_values(|s: FilterSpec| s@)
}

/// The first of `specs` that names no piece of metadata that is known.
pub open spec fn first_unknown(specs: Seq<FilterSpecView>) -> Option<Seq<char>>
    decreases specs.len(),
{
    if specs.len() == 0 {
        None
    } else {
        match first_unknown(specs.drop_last()) {
            Some(key) => Some(key),
            None => {
                let key = specs.last().key;
                if key == "status"@ || key == "type"@ || key == "reporter-name"@ || key
                    == "reporter-email"@ {
                    None
                } else {
                    Some(key)
                }
            },
        }
    }
}

impl<'a> MetadataFilter<'a> {
    /// The conditions of the filter.
    pub closed spec fn view(&self) -> FilterView {
        FilterView {
            nontrailers: nontrailer_views(self.nontrailers@),
            trailers: trailer_filter_views(self.trailers@),
        }
    }

    /// The pieces of metadata that the conditions on trailers are about, one
    /// for each condition.
    pub closed spec fn trailer_specs(&self) -> Seq<MetadataSpecification<'_>> {
        condition_specs(self.trailers@)
    }

    /// The order of preference among remotes that the filter was made with.
    pub closed spec fn priorization(&self) -> &'a RemotePriorization {
        self.prios
    }

    /// A filter with the conditions `spec`. A condition that names no piece
    /// of metadata that is known is refused, the first such with its name.
    pub fn new(prios: &'a RemotePriorization, spec: Vec<FilterSpec>) -> (r: Result<
        MetadataFilter<'a>,
        Kind,
    >)
        ensures
            match r {
                Ok(filter) => filter_of(filter_spec_views(spec@)) == Some(filter.view())
                    && filter.priorization() == prios && specs_fit(
                    filter.trailer_specs(),
                    filter.view().trailers,
                ),
                Err(Kind::UnknownMetadataKey(key)) => first_unknown(filter_spec_views(spec@))
                    == Some(key@) && filter_of(filter_spec_views(spec@)) is None,
                Err(_) => false,
            },
    {
        let mut nontrailers: Vec<(NonTrailer, ValueMatcher, bool)> = Vec::new();
        let mut trailers: Vec<(TrailerFilter<'a>, bool)> = Vec::new();
        let ghost all = filter_spec_views(spec@);
        let mut i: usize = 0;
        proof {
            assert(all.take(0) =~= Seq::<FilterSpecView>::empty());
            assert(nontrailer_views(nontrailers@) =~= Seq::<(NonTrailer, MatcherView, bool)>::empty());
            assert(trailer_filter_views(trailers@) =~= Seq::<
                (Seq<char>, MatcherView, bool),
            >::empty());
        }
        while i < spec.len()
            invariant
                i <= spec.len(),
                all == filter_spec_views(spec@),
                filter_of(all.take(i as int)) == Some(
                    FilterView {
                        nontrailers: nontrailer_views(nontrailers@),
                        trailers: trailer_filter_views(trailers@),
                    },
                ),
                first_unknown(all.take(i as int)) is None,
                specs_fit(condition_specs(trailers@), trailer_filter_views(trailers@)),
            decreases spec.len() - i,
        {
            let s = &spec[i];
            let ghost had_n = nontrailer_views(nontrailers@);
            let ghost had_t = trailer_filter_views(trailers@);
            proof {
                assert(all.take(i + 1).drop_last() =~= all.take(i as int));
                assert(all.take(i + 1).last() == spec@[i as int]@);
            }
            if same_text(s.key.as_str(), "status") {
                let condition = (TrailerFilter::new(issue_status_spec(), s.matcher.duplicate()), s.negated);
                proof {
                    assert(trailer_filter_views(trailers@.push(condition)) =~= had_t.push(
                        ("Dit-status"@, s.matcher@, s.negated),
                    ));
                    assert(condition_specs(trailers@.push(condition)) =~= condition_specs(
                        trailers@,
                    ).push(condition.0.specification()));
                }
                trailers.push(condition);
            } else if same_text(s.key.as_str(), "type") {
                let condition = (TrailerFilter::new(issue_type_spec(), s.matcher.duplicate()), s.negated);
                proof {
                    assert(trailer_filter_views(trailers@.push(condition)) =~= had_t.push(
                        ("Dit-type"@, s.matcher@, s.negated),
                    ));
                    assert(condition_specs(trailers@.push(condition)) =~= condition_specs(
                        trailers@,
                    ).push(condition.0.specification()));
                }
                trailers.push(condition);
            } else if same_text(s.key.as_str(), "reporter-name") {
                let condition = (NonTrailer::ReporterName, s.matcher.duplicate(), s.negated);
                proof {
                    assert(nontrailer_views(nontrailers@.push(condition)) =~= had_n.push(
                        (NonTrailer::ReporterName, s.matcher@, s.negated),
                    ));
                }
                nontrailers.push(condition);
            } else if same_text(s.key.as_str(), "reporter-email") {
                let condition = (NonTrailer::ReporterEMail, s.matcher.duplicate(), s.negated);
                proof {
                    assert(nontrailer_views(nontrailers@.push(condition)) =~= had_n.push(
                        (NonTrailer::ReporterEMail, s.matcher@, s.negated),
                    ));
                }
                nontrailers.push(condition);
            } else {
                proof {
                    lemma_unknown_stays(all, i + 1);
                }
                return Err(Kind::UnknownMetadataKey(s.key.clone()));
            }
            i += 1;
        }
        proof {
            assert(all.take(i as int) =~= all);
        }
        Ok(MetadataFilter { prios, nontrailers, trailers })
    }

    /// The filter without conditions, which every issue passes.
    pub fn empty(prios: &'a RemotePriorization) -> (r: MetadataFilter<'a>)
        ensures
            r.view().nontrailers.len() == 0,
            r.view().trailers.len() == 0,
            r.trailer_specs().len() == 0,
            r.priorization() == prios,
    {
        MetadataFilter { prios, nontrailers: Vec::new(), trailers: Vec::new() }
    }

    /// The order of preference among remotes by which the head of an issue
    /// is to be selected before its messages are read.
    pub fn prios(&self) -> (r: &'a RemotePriorization)
        ensures
            r == self.priorization(),
    {
        self.prios
    }

    /// Whether the reporter of an issue meets the conditions on the
    /// reporter.
    pub fn reporter_passes(&self, reporter: &Reporter) -> (b: bool)
        ensures
            b == reporter_passes(self.view().nontrailers, reporter.name@, reporter.email@),
    {
        let ghost conditions = nontrailer_views(self.nontrailers@);
        let mut i: usize = 0;
        while i < self.nontrailers.len()
            invariant
                i <= self.nontrailers.len(),
                conditions == nontrailer_views(self.nontrailers@),
                forall|j: int|
                    0 <= j < i ==> {
                        let c = #[trigger] conditions[j];
                        matches(c.1, c.0.value_for(reporter.name@, reporter.email@)) != c.2
                    },
            decreases self.nontrailers.len() - i,
        {
            let condition = &self.nontrailers[i];
            let value = condition.0.for_issue(reporter);
            if condition.1.matches(&value) == condition.2 {
                proof {
                    let c = conditions[i as int];
                    assert(c == (condition.0, condition.1@, condition.2));
                }
                return false;
            }
            proof {
                let c = conditions[i as int];
                assert(c == (condition.0, condition.1@, condition.2));
            }
            i += 1;
        }
        true
    }

    /// Whether the filter has conditions on trailers. Where it has none,
    /// the messages of an issue need not be read.
    pub fn has_trailer_conditions(&self) -> (b: bool)
        ensures
            b == (self.view().trailers.len() > 0),
    {
        self.trailers.len() > 0
    }

    /// Whether the filter has conditions on the reporter. Where it has
    /// none, the reporter of an issue need not be read: whoever it is passes.
    pub fn needs_reporter(&self) -> (b: bool)
        ensures
            b == (self.view().nontrailers.len() > 0),
    {
        self.nontrailers.len() > 0
    }

    /// Whether the messages of an issue are to be read for their trailers,
    /// given its reporter: they are where the reporter meets the conditions
    /// on the reporter and the filter has conditions on trailers. Where they
    /// are not, what [`filter`](Self::filter) answers does not depend on the
    /// trailers.
    pub fn needs_trailers(&self, reporter: &Reporter) -> (b: bool)
        ensures
            b == (reporter_passes(self.view().nontrailers, reporter.name@, reporter.email@)
                && self.view().trailers.len() > 0),
    {
        self.reporter_passes(reporter) && self.has_trailer_conditions()
    }

    /// The pieces of metadata to gather for the conditions on trailers.
    pub fn specs(&self) -> (specs: Vec<MetadataSpecification<'a>>)
        ensures
            specs@ == self.trailer_specs(),
    {
        let mut specs: Vec<MetadataSpecification<'a>> = Vec::new();
        let mut i: usize = 0;
        while i < self.trailers.len()
            invariant
                i <= self.trailers.len(),
                specs@ == condition_specs(self.trailers@).take(i as int),
            decreases self.trailers.len() - i,
        {
            let spec = *self.trailers[i].0.spec();
            proof {
                assert(specs@.push(spec) =~= condition_specs(self.trailers@).take(i + 1));
            }
            specs.push(spec);
            i += 1;
        }
        proof {
            assert(condition_specs(self.trailers@).take(i as int) =~= condition_specs(
                self.trailers@,
            ));
        }
        specs
    }

    /// Whether what was gathered meets the conditions on trailers.
    pub fn trailers_pass(&self, accumulator: &AccumulatorMap) -> (b: bool)
        ensures
            b == trailers_pass(self.view().trailers, accumulator.entries()),
    {
        let ghost conditions = trailer_filter_views(self.trailers@);
        let mut i: usize = 0;
        while i < self.trailers.len()
            invariant
                i <= self.trailers.len(),
                conditions == trailer_filter_views(self.trailers@),
                forall|j: int|
                    0 <= j < i ==> {
                        let c = #[trigger] conditions[j];
                        entries_match(accumulator.entries(), c.0, c.1) != c.2
                    },
            decreases self.trailers.len() - i,
        {
            let condition = &self.trailers[i];
            if condition.0.matches(accumulator) == condition.1 {
                proof {
                    let c = conditions[i as int];
                    assert(c == (condition.0.key(), condition.0.matcher(), condition.1));
                }
                return false;
            }
            proof {
                let c = conditions[i as int];
                assert(c == (condition.0.key(), condition.0.matcher(), condition.1));
            }
            i += 1;
        }
        true
    }

    /// Whether an issue passes the filter, given its reporter and the
    /// trailers of its messages, read from the selected head back to the
    /// initial message. The trailers are not looked at where the reporter
    /// fails a condition or the filter has no condition on trailers.
    pub fn filter(&self, reporter: &Reporter, trailers: Vec<Trailer>) -> (b: bool)
        ensures
            b == (reporter_passes(self.view().nontrailers, reporter.name@, reporter.email@) && (
            self.view().trailers.len() == 0 || trailers_pass(
                self.view().trailers,
                gathered(self.trailer_specs(), trailer_views(trailers@)),
            ))),
    {
        if !self.reporter_passes(reporter) {
            return false;
        }
        if !self.has_trailer_conditions() {
            return true;
        }
        let mut accumulator = self.specs().into_map();
        proof {
            accumulator.lemma_state();
        }
        let ghost start = accumulator.entries();
        accumulator.process_all(trailers);
        proof {
            accumulator.lemma_state();
        }
        self.trailers_pass(&accumulator)
    }
}

/// A condition that names no known piece of metadata makes the whole list
/// of conditions no filter, and stays the first such however many
/// conditions follow.
proof fn lemma_unknown_stays(specs: Seq<FilterSpecView>, n: int)
    requires
        1 <= n <= specs.len(),
        first_unknown(specs.take(n - 1)) is None,
        first_unknown(specs.take(n)) is Some,
    ensures
        first_unknown(specs) == first_unknown(specs.take(n)),
        filter_of(specs) is None,
        filter_of(specs.take(n)) is None,
    decreases specs.len() - n,
{
    assert(specs.take(n).drop_last() =~= specs.take(n - 1));
    if n < specs.len() {
        lemma_unknown_grows(specs, n);
    } else {
        assert(specs.take(n) =~= specs);
    }
}

/// Once a condition names no known piece of metadata, more conditions
/// change nothing.
proof fn lemma_unknown_grows(specs: Seq<FilterSpecView>, n: int)
    requires
        0 <= n <= specs.len(),
        first_unknown(specs.take(n)) is Some,
        filter_of(specs.take(n)) is None,
    ensures
        first_unknown(specs) == first_unknown(specs.take(n)),
        filter_of(specs) is None,
    decreases specs.len() - n,
{
    if n < specs.len() {
        assert(specs.take(n + 1).drop_last() =~= specs.take(n));
        lemma_unknown_grows(specs, n + 1);
    } else {
        assert(specs.take(n) =~= specs);
    }
}

} // verus!
