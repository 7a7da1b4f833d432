use deserialize_versioned::resolve::{try_version, Attempt, ResolveError};
use deserialize_versioned::tag::{Current, Num, Sem, Uuid, Ver, VersionKey, VersionTag};
use deserialize_versioned::versions::{RegistryError, Versions};
use serde::Deserialize;
use serde_json::Value;

fn parse_json(text: &str) -> Value {
    serde_json::from_str::<Value>(text).unwrap()
}

/// Reads the buffer as the current type `u32`.
fn current_u32(buffer: &Value) -> Attempt<u32> {
    try_version(u32::deserialize(buffer), &|v: u32| -> Result<u32, ()> { Ok(v) })
}

/// Reads the buffer as a string holding a number, and adds `offset`.
fn string_plus(buffer: &Value, offset: u64) -> Attempt<u64> {
    try_version(String::deserialize(buffer), &|s: String| {
        s.parse::<u64>().map(|n| n + offset)
    })
}

fn string_plus_u32(buffer: &Value, offset: u32) -> Attempt<u32> {
    try_version(String::deserialize(buffer), &|s: String| {
        s.parse::<u32>().map(|n| n + offset)
    })
}

#[derive(Debug, PartialEq)]
struct Field3(u64);

#[derive(Debug, PartialEq)]
struct New {
    value: u32,
    value2: u32,
    value3: Field3,
    value4: u32,
}

#[test]
fn test_legacy() {
    let legacy = parse_json(r#"{"value":"100","value2":"100","value3":"100","value4":"100"}"#);
    let old_string = VersionKey::Label(7);

    let field = |name: &str, key: VersionKey, offset: u32| -> u32 {
        let versions = Versions::new(vec![Ver::<Current>::key(), key]).unwrap();
        let buffer = &legacy[name];
        let r = versions.resolve(buffer, &|b: &Value, i: usize| {
            if versions.key(i) == VersionKey::Current {
                current_u32(b)
            } else {
                string_plus_u32(b, offset)
            }
        });
        r.result.unwrap()
    };

    let versions3 = Versions::new(vec![Ver::<Current>::key(), Ver::<Num<1>>::key()]).unwrap();
    let r3 = versions3.resolve(&legacy["value3"], &|b: &Value, i: usize| {
        if versions3.key(i) == VersionKey::Current {
            try_version(u64::deserialize(b), &|v: u64| -> Result<Field3, ()> { Ok(Field3(v)) })
        } else {
            try_version(String::deserialize(b), &|s: String| s.parse::<u64>().map(|n| Field3(n + 200)))
        }
    });

    let new = New {
        value: field("value", Ver::<Uuid<1>>::key(), 0),
        value2: field("value2", old_string, 100),
        value3: r3.result.unwrap(),
        value4: field("value4", Ver::<Sem<0, 0, 1>>::key(), 300),
    };
    assert_eq!(
        new,
        New {
            value: 100,
            value2: 200,
            value3: Field3(300),
            value4: 400,
        }
    );
}

/// Current `u32`, then +100, then +300, on the string "100".
fn two_string_versions() -> Versions {
    Versions::new(vec![VersionKey::Current, VersionKey::Num(1), VersionKey::Num(2)]).unwrap()
}

fn try_two_string_versions(b: &Value, i: usize) -> Attempt<u32> {
    match i {
        0 => current_u32(b),
        1 => string_plus_u32(b, 100),
        _ => string_plus_u32(b, 300),
    }
}

#[test]
fn earlier_of_two_matching_versions_wins() {
    let buffer = parse_json(r#""100""#);
    let r = two_string_versions().resolve(&buffer, &try_two_string_versions);
    assert_eq!(r.result, Ok(200));
    assert_eq!(r.tried, 2);
}

#[test]
fn current_form_is_taken_as_is() {
    let buffer = parse_json("42");
    let r = two_string_versions().resolve(&buffer, &try_two_string_versions);
    assert_eq!(r.result, Ok(42));
    assert_eq!(r.tried, 1);
}

#[test]
fn current_is_tried_first_wherever_it_stands() {
    let versions = Versions::new(vec![VersionKey::Num(1), VersionKey::Num(2), VersionKey::Current]).unwrap();
    assert_eq!(versions.current(), 2);
    assert_eq!(versions.trial_position(0), 2);
    assert_eq!(versions.trial_position(1), 0);
    assert_eq!(versions.trial_position(2), 1);
    let buffer = parse_json("42");
    let r = versions.resolve(&buffer, &|b: &Value, i: usize| match i {
        2 => try_version(u64::deserialize(b), &|v: u64| -> Result<u64, ()> { Ok(v) }),
        _ => Attempt::Converted(0),
    });
    assert_eq!(r.result, Ok(42));
    assert_eq!(r.tried, 1);
}

#[test]
fn no_matching_version_is_an_error() {
    let buffer = parse_json("true");
    let r = two_string_versions().resolve(&buffer, &try_two_string_versions);
    assert_eq!(r.result, Err(ResolveError::NoMatch));
    assert_eq!(r.tried, 3);
    assert_eq!(ResolveError::NoMatch.message(), "data did not match any version type");
}

#[test]
fn reversed_order_picks_the_single_match() {
    let buffer = parse_json(r#"[5]"#);
    let attempt = |b: &Value, key: VersionKey| -> Attempt<u64> {
        match key {
            VersionKey::Current => try_version(u64::deserialize(b), &|v: u64| -> Result<u64, ()> { Ok(v) }),
            VersionKey::Num(1) => string_plus(b, 100),
            _ => try_version(Vec::<u64>::deserialize(b), &|v: Vec<u64>| -> Result<u64, ()> { Ok(v[0] + 1000) }),
        }
    };
    let forward = Versions::new(vec![VersionKey::Current, VersionKey::Num(1), VersionKey::Num(2)]).unwrap();
    let backward = Versions::new(vec![VersionKey::Current, VersionKey::Num(2), VersionKey::Num(1)]).unwrap();
    let r1 = forward.resolve(&buffer, &|b: &Value, i: usize| attempt(b, forward.key(i)));
    let r2 = backward.resolve(&buffer, &|b: &Value, i: usize| attempt(b, backward.key(i)));
    assert_eq!(r1.result, Ok(1005));
    assert_eq!(r2.result, Ok(1005));
    let again = forward.resolve(&buffer, &|b: &Value, i: usize| attempt(b, forward.key(i)));
    assert_eq!(again.result, Ok(1005));
    assert_eq!(r1.tried, 3);
    assert_eq!(r2.tried, 2);
}

#[test]
fn refused_conversion_falls_through() {
    let buffer = parse_json(r#""x100""#);
    let versions = two_string_versions();
    let r = versions.resolve(&buffer, &|b: &Value, i: usize| match i {
        0 => try_version(u64::deserialize(b), &|v: u64| -> Result<u64, ()> { Ok(v) }),
        1 => string_plus(b, 100),
        _ => try_version(String::deserialize(b), &|s: String| {
            s.trim_start_matches('x').parse::<u64>().map(|n| n + 300)
        }),
    });
    assert_eq!(r.result, Ok(400));
    assert_eq!(r.tried, 3);
}

#[test]
fn try_version_tells_mismatch_from_rejection() {
    let text = parse_json(r#""abc""#);
    assert!(matches!(current_u32(&text), Attempt::Mismatch));
    assert!(matches!(string_plus(&text, 1), Attempt::Rejected));
    let number = parse_json(r#""41""#);
    assert!(matches!(string_plus(&number, 1), Attempt::Converted(42)));
}

#[test]
fn registry_needs_one_current_and_distinct_keys() {
    assert!(matches!(Versions::new(vec![VersionKey::Num(1)]), Err(RegistryError::NoCurrent)));
    assert!(matches!(Versions::new(vec![]), Err(RegistryError::NoCurrent)));
    assert!(matches!(
        Versions::new(vec![VersionKey::Current, VersionKey::Num(1), VersionKey::Num(1)]),
        Err(RegistryError::Duplicate)
    ));
    assert!(matches!(
        Versions::new(vec![VersionKey::Current, VersionKey::Current]),
        Err(RegistryError::Duplicate)
    ));
    let v = Versions::new(vec![VersionKey::Current]).unwrap();
    assert_eq!(v.len(), 1);
    assert_eq!(v.key(0), VersionKey::Current);
}

#[test]
fn tags_give_their_keys() {
    assert_eq!(Uuid::<1>::key(), VersionKey::Uuid(1));
    assert_eq!(Num::<3>::key(), VersionKey::Num(3));
    assert_eq!(Sem::<0, 0, 1>::key(), VersionKey::Sem(0, 0, 1));
    assert_eq!(Current::key(), VersionKey::Current);
    assert_eq!(Ver::<Sem<1, 2, 3>>::key(), VersionKey::Sem(1, 2, 3));
    assert_eq!(Ver::<Current>::key(), VersionKey::Current);
}
