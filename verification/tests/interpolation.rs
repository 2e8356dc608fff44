use ox::interpolation::{InterpolationContext, InterpolationError};
use ox::strmap::StringMap;

fn map(pairs: &[(&str, &str)]) -> StringMap<String> {
    let mut m = StringMap::new();
    for (k, v) in pairs {
        m.insert(k.to_string(), v.to_string());
    }
    m
}

#[test]
fn basic_interpolation() {
    let values = map(&[("name", "world")]);
    let ctx = InterpolationContext::fields_only(values);
    assert_eq!(ctx.interpolate("hello {name}").unwrap(), "hello world");
}

#[test]
fn secret_interpolation() {
    let secrets = map(&[("api_key", "sk-123")]);
    let ctx = InterpolationContext::new(StringMap::new(), secrets);
    assert_eq!(
        ctx.interpolate("{secret.api_key}").unwrap(),
        "sk-123"
    );
}

#[test]
fn mixed_interpolation() {
    let values = map(&[("model", "sonnet")]);
    let secrets = map(&[("key", "secret-val")]);
    let ctx = InterpolationContext::new(values, secrets);
    assert_eq!(
        ctx.interpolate("--model {model} --key {secret.key}").unwrap(),
        "--model sonnet --key secret-val"
    );
}

#[test]
fn missing_field_error() {
    let ctx = InterpolationContext::fields_only(StringMap::new());
    let err = ctx.interpolate("{missing}").unwrap_err();
    assert!(matches!(err, InterpolationError::MissingField(ref s) if s == "missing"));
    assert_eq!(err.message(), "missing field: missing");
}

#[test]
fn missing_secret_error() {
    let ctx = InterpolationContext::fields_only(StringMap::new());
    let err = ctx.interpolate("{secret.missing}").unwrap_err();
    assert!(matches!(err, InterpolationError::MissingSecret(ref s) if s == "missing"));
    assert_eq!(err.message(), "missing secret: missing");
}

#[test]
fn no_placeholders() {
    let ctx = InterpolationContext::fields_only(StringMap::new());
    assert_eq!(ctx.interpolate("plain text").unwrap(), "plain text");
}

#[test]
fn collect_secret_refs_basic() {
    let refs =
        InterpolationContext::collect_secret_refs("key={secret.api_key} tok={secret.token}");
    assert_eq!(refs, vec!["api_key", "token"]);
}

#[test]
fn collect_secret_refs_no_secrets() {
    let refs = InterpolationContext::collect_secret_refs("hello {name}");
    assert!(refs.is_empty());
}

#[test]
fn collect_all_dedupes() {
    let refs = InterpolationContext::collect_all_secret_refs(&[
        "{secret.a} {secret.b}",
        "{secret.b} {secret.c}",
    ]);
    assert_eq!(refs, vec!["a", "b", "c"]);
}

#[test]
fn has_field() {
    let values = map(&[("model", "sonnet")]);
    let ctx = InterpolationContext::fields_only(values);
    assert!(ctx.has_field("model"));
    assert!(!ctx.has_field("persona"));
}

#[test]
fn open_brace_runs_to_the_end() {
    let ctx = InterpolationContext::fields_only(map(&[("rest", "R")]));
    assert_eq!(ctx.interpolate("x{rest").unwrap(), "xR");
    assert_eq!(ctx.interpolate("}{rest}}").unwrap(), "}R}");
}

#[test]
fn first_missing_reference_is_reported() {
    let ctx = InterpolationContext::fields_only(map(&[("a", "1")]));
    let err = ctx.interpolate("{a}{secret.s}{b}").unwrap_err();
    assert!(matches!(err, InterpolationError::MissingSecret(ref s) if s == "s"));
    let listed = InterpolationContext::collect_secret_refs("{a}{secret.s}{b}");
    assert_eq!(listed, vec!["s"], "what is missing is what is listed");
}

#[test]
fn references_resolve_exactly_where_all_have_values() {
    let ctx = InterpolationContext::new(map(&[("a", "1")]), map(&[("s", "2")]));
    assert!(ctx.interpolate("{a}{secret.s}").is_ok());
    assert!(ctx.interpolate("{a}{s}").is_err());
    assert!(ctx.interpolate("{}").is_err());
}

#[test]
fn interpolation_goes_part_by_part() {
    let ctx = InterpolationContext::new(map(&[("a", "{b}"), ("", "none")]), map(&[("k", "v")]));
    let parts = ["", "x", "y}", "{a}", "z{a} {secret.k}", "{}", "{gone}", "{secret.gone}-"];
    for first in parts {
        for second in parts.iter().chain(["{a", "x{secret.k"].iter()) {
            let whole = ctx.interpolate(&format!("{first}{second}"));
            match (ctx.interpolate(first), ctx.interpolate(second)) {
                (Ok(x), Ok(y)) => assert_eq!(whole.unwrap(), format!("{x}{y}")),
                (Err(e), _) | (Ok(_), Err(e)) => assert_eq!(whole.unwrap_err().message(), e.message()),
            }
        }
    }
    // An open reference takes up what follows it.
    assert_eq!(ctx.interpolate("{secret.").unwrap_err().message(), "missing secret: ");
    assert_eq!(ctx.interpolate("{secret.k").unwrap(), "v");
}
