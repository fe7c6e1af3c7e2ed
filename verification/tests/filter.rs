use libgitdit::accumulation::{AccumulationPolicy, Accumulator, AccumulatorMap, ValueAccumulator};
use libgitdit::error::Kind;
use libgitdit::filter::{
    FilterSpec, MetadataFilter, NonTrailer, Reporter, TrailerFilter, ValueMatcher,
};
use libgitdit::message::metadata::issue_status_spec;
use libgitdit::reference::RemotePriorization;
use libgitdit::trailer::{Trailer, TrailerValue};

fn text(s: &str) -> TrailerValue {
    TrailerValue::String(s.to_string())
}

fn reporter() -> Reporter {
    Reporter { name: "Foo Bar".to_string(), email: "foo.bar@example.com".to_string() }
}

fn specs(conditions: Vec<&str>) -> Vec<FilterSpec> {
    conditions
        .into_iter()
        .map(|c| FilterSpec::from_str(c).expect("a condition"))
        .collect()
}

#[test]
fn matchers() {
    assert!(ValueMatcher::Any.matches(&text("anything")));
    assert!(ValueMatcher::Any.matches(&TrailerValue::Int(0)));
    assert!(ValueMatcher::Equals(text("open")).matches(&text("open")));
    assert!(!ValueMatcher::Equals(text("open")).matches(&text("opened")));
    assert!(!ValueMatcher::Equals(text("1")).matches(&TrailerValue::Int(1)));
    assert!(ValueMatcher::Equals(TrailerValue::Int(1)).matches(&TrailerValue::Int(1)));
    assert!(ValueMatcher::Contains("pen".to_string()).matches(&text("opened")));
    assert!(ValueMatcher::Contains("".to_string()).matches(&text("")));
    assert!(ValueMatcher::Contains("".to_string()).matches(&text("x")));
    assert!(!ValueMatcher::Contains("x".to_string()).matches(&text("")));
    assert!(!ValueMatcher::Contains("opened!".to_string()).matches(&text("opened")));
    assert!(ValueMatcher::Contains("23".to_string()).matches(&TrailerValue::Int(-1234)));
    assert!(ValueMatcher::Contains("-1".to_string()).matches(&TrailerValue::Int(-1234)));
    assert!(!ValueMatcher::Contains("13".to_string()).matches(&TrailerValue::Int(-1234)));
}

#[test]
fn matching_text_agrees_with_the_standard_library() {
    for hay in ["", "a", "ab", "aab", "abab", "aaab", "ababc", "xyz abc", "ääb"] {
        for needle in ["", "a", "b", "ab", "ba", "aab", "abc", "abab", "c ", "äb", "ä"] {
            assert_eq!(
                ValueMatcher::Contains(needle.to_string()).matches(&text(hay)),
                hay.contains(needle),
                "for {:?} in {:?}",
                needle,
                hay
            );
        }
    }
}

#[test]
fn matching_any_of_several() {
    let values = vec![text("a"), TrailerValue::Int(2), text("c")];
    assert!(ValueMatcher::Any.matches_any(&values));
    assert!(!ValueMatcher::Any.matches_any(&Vec::new()));
    assert!(ValueMatcher::Equals(TrailerValue::Int(2)).matches_any(&values));
    assert!(!ValueMatcher::Equals(text("2")).matches_any(&values));
    assert!(ValueMatcher::Contains("c".to_string()).matches_any(&values));
    assert!(!ValueMatcher::Contains("d".to_string()).matches_any(&values));
}

#[test]
fn a_condition_on_what_was_gathered() {
    let mut map = AccumulatorMap::new();
    map.insert("Dit-status".to_string(), ValueAccumulator::from(AccumulationPolicy::Latest));
    let closed = TrailerFilter::new(issue_status_spec(), ValueMatcher::Equals(text("closed")));
    let any = TrailerFilter::new(issue_status_spec(), ValueMatcher::Any);
    assert_eq!(closed.spec().key, "Dit-status");
    // Nothing gathered: no matcher accepts, not even the one that takes any
    // value.
    assert!(!closed.matches(&map));
    assert!(!any.matches(&map));
    assert!(!any.matches(&AccumulatorMap::new()));
    map.process(Trailer::new("Dit-status", "closed"));
    map.process(Trailer::new("Dit-status", "open"));
    assert!(closed.matches(&map));
    assert!(any.matches(&map));
    let open = TrailerFilter::new(issue_status_spec(), ValueMatcher::Equals(text("open")));
    assert!(!open.matches(&map));
}

#[test]
fn conditions_as_text() {
    let spec = FilterSpec::from_str("status").unwrap();
    assert_eq!(spec.key, "status");
    assert!(matches!(spec.matcher, ValueMatcher::Any));
    assert!(!spec.negated);

    let spec = FilterSpec::from_str("!status=closed").unwrap();
    assert_eq!(spec.key, "status");
    assert!(matches!(spec.matcher, ValueMatcher::Equals(TrailerValue::String(ref s)) if s == "closed"));
    assert!(spec.negated);

    let spec = FilterSpec::from_str("reporter-name~Foo Bar").unwrap();
    assert_eq!(spec.key, "reporter-name");
    assert!(matches!(spec.matcher, ValueMatcher::Contains(ref s) if s == "Foo Bar"));
    assert!(!spec.negated);

    let spec = FilterSpec::from_str("priority=3").unwrap();
    assert!(matches!(spec.matcher, ValueMatcher::Equals(TrailerValue::Int(3))));
    // The value is taken as it stands: white space keeps it from being a
    // number.
    let spec = FilterSpec::from_str("priority= 3").unwrap();
    assert!(matches!(spec.matcher, ValueMatcher::Equals(TrailerValue::String(ref s)) if s == " 3"));
    let spec = FilterSpec::from_str("a=").unwrap();
    assert!(matches!(spec.matcher, ValueMatcher::Equals(TrailerValue::String(ref s)) if s.is_empty()));
    let spec = FilterSpec::from_str("a~=~").unwrap();
    assert!(matches!(spec.matcher, ValueMatcher::Contains(ref s) if s == "=~"));

    for malformed in ["", "!", "=x", "!=x", "~", "a b", "a:b", "!!a", "a!", " a", "a =b", "a=b\nc", "ä"] {
        match FilterSpec::from_str(malformed) {
            Err(Kind::MalformedFilterSpec(given)) => assert_eq!(given, malformed),
            other => panic!("for {:?}: {:?}", malformed, other),
        }
    }
}

#[test]
fn conditions_are_those_the_pattern_takes() {
    let pattern = regex::Regex::new(r"^(!)?([[:alnum:]-]+)((=|~)(.*))?$").unwrap();
    for given in [
        "status", "!status", "status=open", "status~op", "!type=bug", "a=b=c", "a~b~c", "a=~",
        "", "!", "!!a", "a!", "=a", "~a", "a b=c", "a=b c", "a=\n", "a\n", "a~b\nc", "-", "!-=-",
        "A1-b2=x", "a:b", "a= ", "é", "a=é",
    ] {
        let expected = pattern.captures(given).map(|c| {
            (
                c.get(1).is_some(),
                c[2].to_string(),
                c.get(4).map(|op| op.as_str().to_string()),
                c.get(5).map(|v| v.as_str().to_string()),
            )
        });
        let found = FilterSpec::from_str(given).ok().map(|spec| {
            let (op, value) = match spec.matcher {
                ValueMatcher::Any => (None, None),
                ValueMatcher::Equals(v) => (Some("=".to_string()), Some(v.to_string())),
                ValueMatcher::Contains(s) => (Some("~".to_string()), Some(s)),
            };
            (spec.negated, spec.key, op, value)
        });
        assert_eq!(found, expected, "for {:?}", given);
    }
}

#[test]
fn what_is_asked_about_the_reporter() {
    let who = Reporter { name: "Foo Bar".to_string(), email: "42".to_string() };
    assert_eq!(NonTrailer::ReporterName.for_issue(&who), text("Foo Bar"));
    assert_eq!(NonTrailer::ReporterEMail.for_issue(&who), TrailerValue::Int(42));
    let nobody = Reporter { name: String::new(), email: String::new() };
    assert_eq!(NonTrailer::ReporterName.for_issue(&nobody), TrailerValue::default());
}

#[test]
fn the_empty_filter_passes_all() {
    let prios = RemotePriorization::from("*");
    let filter = MetadataFilter::empty(&prios);
    assert!(!filter.has_trailer_conditions());
    assert!(filter.specs().is_empty());
    assert!(filter.reporter_passes(&reporter()));
    assert!(filter.trailers_pass(&AccumulatorMap::new()));
    assert!(filter.filter(&reporter(), Vec::new()));
    assert!(filter.filter(&reporter(), vec![Trailer::new("Dit-status", "closed")]));
    assert!(!filter.needs_reporter());
    assert!(!filter.needs_trailers(&reporter()));
    assert_eq!(filter.prios().0, vec!["*"]);

    let filter = MetadataFilter::new(&prios, Vec::new()).unwrap();
    assert!(filter.filter(&reporter(), Vec::new()));
}

#[test]
fn unknown_metadata_is_refused() {
    let prios = RemotePriorization::from("*");
    match MetadataFilter::new(&prios, specs(vec!["status", "assignee=me", "colour"])) {
        Err(Kind::UnknownMetadataKey(key)) => assert_eq!(key, "assignee"),
        Err(other) => panic!("unexpected: {:?}", other),
        Ok(_) => panic!("a filter on unknown metadata"),
    }
    assert!(MetadataFilter::new(&prios, specs(vec!["Dit-status=open"])).is_err());
    assert!(MetadataFilter::new(
        &prios,
        specs(vec!["status", "type", "reporter-name", "reporter-email"])
    )
    .is_ok());
}

#[test]
fn filtering_by_the_reporter() {
    let prios = RemotePriorization::from("*");
    let by = |conditions: Vec<&str>| {
        MetadataFilter::new(&prios, specs(conditions))
            .unwrap()
            .filter(&reporter(), Vec::new())
    };
    assert!(by(vec!["reporter-name"]));
    assert!(by(vec!["reporter-name=Foo Bar"]));
    assert!(by(vec!["reporter-name~Bar", "reporter-email~@example.com"]));
    assert!(!by(vec!["reporter-name=Foo"]));
    assert!(!by(vec!["!reporter-name"]));
    assert!(by(vec!["!reporter-name=Foo"]));
    assert!(!by(vec!["reporter-name~Bar", "!reporter-email~@example.com"]));
    assert!(by(vec!["!reporter-email=foo.bar@example.org"]));
}

#[test]
fn filtering_by_trailers() {
    let prios = RemotePriorization::from("*");
    // The trailers come from the newest message first.
    let trailers = || {
        vec![
            Trailer::new("Signed-off-by", "Spock"),
            Trailer::new("Dit-status", "closed"),
            Trailer::new("Dit-type", "bug"),
            Trailer::new("Dit-status", "open"),
            Trailer::new("Dit-type", "feature"),
        ]
    };
    let by = |conditions: Vec<&str>| {
        let filter = MetadataFilter::new(&prios, specs(conditions)).unwrap();
        assert!(filter.has_trailer_conditions());
        filter.filter(&reporter(), trailers())
    };
    assert!(by(vec!["status"]));
    assert!(by(vec!["status=closed"]));
    assert!(!by(vec!["status=open"]));
    assert!(by(vec!["!status=open"]));
    assert!(by(vec!["status~los", "type=bug"]));
    assert!(!by(vec!["status~los", "type=feature"]));
    assert!(!by(vec!["status~los", "!type=bug"]));
    assert!(by(vec!["status=closed", "reporter-name~Foo"]));
    assert!(!by(vec!["status=closed", "reporter-name~Baz"]));
    assert!(by(vec!["status=closed", "status~clo", "!status~ope"]));

    // Without trailers nothing is gathered, and only a negated condition
    // holds.
    let filter = MetadataFilter::new(&prios, specs(vec!["status"])).unwrap();
    assert!(!filter.filter(&reporter(), Vec::new()));
    let filter = MetadataFilter::new(&prios, specs(vec!["!status"])).unwrap();
    assert!(filter.filter(&reporter(), Vec::new()));
    assert!(!filter.filter(&reporter(), trailers()));
}

#[test]
fn a_filter_names_what_to_gather() {
    let prios = RemotePriorization::from("*");
    let filter =
        MetadataFilter::new(&prios, specs(vec!["status=open", "reporter-name", "type", "!status"]))
            .unwrap();
    let keys: Vec<&str> = filter.specs().iter().map(|spec| spec.key).collect();
    assert_eq!(keys, vec!["Dit-status", "Dit-type", "Dit-status"]);
}

#[test]
fn a_filter_says_what_to_read() {
    let prios = RemotePriorization::from("*");
    let nobody = Reporter { name: String::new(), email: String::new() };

    let by_status = MetadataFilter::new(&prios, specs(vec!["status=open"])).unwrap();
    assert!(!by_status.needs_reporter());
    assert!(by_status.needs_trailers(&nobody));

    let by_name = MetadataFilter::new(&prios, specs(vec!["reporter-name~Foo"])).unwrap();
    assert!(by_name.needs_reporter());
    assert!(!by_name.needs_trailers(&reporter()));
    assert!(!by_name.needs_trailers(&nobody));

    let by_both =
        MetadataFilter::new(&prios, specs(vec!["reporter-name~Foo", "status=open"])).unwrap();
    assert!(by_both.needs_reporter());
    assert!(by_both.needs_trailers(&reporter()));
    // Where the reporter fails, the trailers make no difference.
    assert!(!by_both.needs_trailers(&nobody));
    assert!(!by_both.filter(&nobody, vec![Trailer::new("Dit-status", "open")]));
    assert!(by_both.filter(&reporter(), vec![Trailer::new("Dit-status", "open")]));
}
