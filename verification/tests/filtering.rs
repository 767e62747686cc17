use mdns_reflector::filter::{
    build_default_filter, choose_filter, init_tracing, settle_filter, sliceable,
    try_choose_filter, FilterProblem, FilterVariable, TracingError,
};
use tracing_subscriber::filter::EnvFilter;

fn directives(text: &str) -> FilterVariable {
    FilterVariable::Directives(text.to_string())
}

#[test]
fn default_filter() {
    assert_eq!(build_default_filter().to_string(), "mdns_reflector=trace,info");
}

#[test]
fn filter_of_the_environment() {
    let (filter, problem) = choose_filter(directives("WARN,tokio=debug"));
    assert_eq!(filter.to_string(), "tokio=debug,warn");
    assert!(problem.is_none());
}

#[test]
fn invalid_directives_fall_back() {
    let (filter, problem) = choose_filter(directives("tokio=loud"));
    assert_eq!(filter.to_string(), "mdns_reflector=trace,info");
    assert!(matches!(problem, Some(FilterProblem::Invalid(_))));
}

#[test]
fn no_directives_fall_back() {
    let (filter, problem) = choose_filter(FilterVariable::NotPresent);
    assert_eq!(filter.to_string(), "mdns_reflector=trace,info");
    assert!(problem.is_none());
    let (filter, problem) = choose_filter(FilterVariable::NotUnicode);
    assert_eq!(filter.to_string(), "mdns_reflector=trace,info");
    assert!(matches!(problem, Some(FilterProblem::NotUnicode)));
}

#[test]
fn settled_filters() {
    let parse = |text: &str| EnvFilter::builder().parse(text);
    let (filter, problem) = settle_filter(parse("error"), build_default_filter());
    assert_eq!(filter.to_string(), "error");
    assert!(problem.is_none());
    let (filter, problem) = settle_filter(parse("=,"), parse("debug").unwrap());
    assert_eq!(filter.to_string(), "debug");
    assert!(matches!(problem, Some(FilterProblem::Invalid(_))));
}

#[test]
fn sliceable_directives() {
    for text in [
        "", "info", " info , a=b", "é=info", "a=info,é=debug", "é =info", " é", "\u{3000}info",
        " éa=info", "\u{85},a", " info,é=info",
        // no part ends there
        " é]", " aé}b", " a=é]", " a[é", " [ab{c=é", " [a]é=info",
        // the field or the first character ends it
        "      [z=((z{fffé((}]=info", " —é=info", " (é=info", " [{éa}]]=info",
        // another directive ends it
        "a=loud, é=info", "(, é=info",
        "  [b{ccé}]", " [ab]=éé", " [aa{b=(}]=é",
    ] {
        assert!(sliceable(text), "{:?}", text);
        assert!(try_choose_filter(directives(text)).is_some());
    }
    for text in [
        "  é=info", " é=info", "info,\té=info", "\u{a0}xé=info", " aé[b]=info", " é[b",
        " [aé]", " [aé{b}", " [a{é}]", "a, é=info",
        "\u{a0}\u{a0} aé[b{c}]=info", "      [z=z=z{fffé((}]=info",
    ] {
        assert!(!sliceable(text), "{:?}", text);
        assert!(try_choose_filter(directives(text)).is_none());
    }
}

#[test]
fn sliceable_directives_are_parsed() {
    let alphabet = [' ', '\u{a0}', 'a', 'é', '=', '[', ']', '{', '}', ',', '(', '€'];
    let mut texts = vec![String::new()];
    let mut parsed = 0;
    for _ in 0..4 {
        let mut longer = Vec::new();
        for text in &texts {
            for c in alphabet {
                let mut next = text.clone();
                next.push(c);
                longer.push(next);
            }
        }
        for text in &longer {
            if sliceable(text) {
                let (filter, problem) = choose_filter(directives(text));
                let plain = EnvFilter::builder().parse(text);
                assert_eq!(problem.is_none(), plain.is_ok());
                if let Ok(plain) = plain {
                    assert_eq!(filter.to_string(), plain.to_string());
                }
                parsed += 1;
            }
        }
        texts = longer;
    }
    assert!(parsed > 20000);
}

#[test]
fn indented_directives_are_parsed() {
    for indent in ["", " ", "  ", "\u{a0}", "\u{3000}", " \u{3000}"] {
        for part in ["a", "é", "xé", "€", "x€y", "", "="] {
            for text in [
                format!("{indent}t{part}=info"),
                format!("{indent}{part}t[s]=info"),
                format!("{indent}t[{part}]=info"),
                format!("{indent}t{part}[s{{f}}]=info"),
                format!("{indent}t[s{part}{{f}}]"),
                format!("{indent}[s{{f={part}}}]=info"),
                format!("{indent}[s{{f={part}}}]={part}"),
                format!("{indent}[{part}{part}{{f}}]={part}info"),
                format!("a=info,{indent}t={part}"),
            ] {
                if sliceable(&text) {
                    let (_, problem) = choose_filter(directives(&text));
                    assert_eq!(problem.is_none(), EnvFilter::builder().parse(&text).is_ok());
                } else {
                    assert!(!indent.is_empty() && !text.is_ascii());
                }
            }
        }
    }
}

#[test]
fn outcomes_of_setting_up() {
    assert!(matches!(init_tracing(true, None), Ok(())));
    assert!(matches!(init_tracing(false, None), Err(TracingError::NotInstalled)));
    assert!(matches!(
        init_tracing(true, Some(FilterProblem::NotUnicode)),
        Err(TracingError::Filter(FilterProblem::NotUnicode))
    ));
    assert!(matches!(
        init_tracing(false, Some(FilterProblem::NotUnicode)),
        Err(TracingError::NotInstalled)
    ));
}

#[test]
fn log_follows_the_environment() {
    for (variable, ok, filter) in [
        (directives("warn"), true, "warn"),
        (directives("tokio=loud"), false, "mdns_reflector=trace,info"),
        (FilterVariable::NotPresent, true, "mdns_reflector=trace,info"),
        (FilterVariable::NotUnicode, false, "mdns_reflector=trace,info"),
    ] {
        let (chosen, problem) = try_choose_filter(variable).unwrap();
        assert_eq!(chosen.to_string(), filter);
        assert_eq!(init_tracing(true, problem).is_ok(), ok);
    }
}
