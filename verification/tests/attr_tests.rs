use render_api::attr::Attribute;
use render_api::attr::AttributeSet;

#[test]
fn round_trip_name_two_values() {
    let a = Attribute::new(b"movement".to_vec(), vec![b"5".to_vec(), b"7".to_vec()]);
    let wire = a.encode();
    assert_eq!(wire, b"movement:5:7".to_vec());
    let back = Attribute::decode(&wire);
    assert_eq!(back.name, b"movement".to_vec());
    assert_eq!(back.args, vec![b"5".to_vec(), b"7".to_vec()]);
}

#[test]
fn round_trip_single_value() {
    let a = Attribute::new(b"status".to_vec(), vec![b"burn".to_vec()]);
    let wire = a.encode();
    assert_eq!(wire, b"status:burn".to_vec());
    let back = Attribute::decode(&wire);
    assert_eq!(back.name, b"status".to_vec());
    assert_eq!(back.args, vec![b"burn".to_vec()]);
}

#[test]
fn round_trip_stat_with_delta() {
    let a = Attribute::new(
        b"stat".to_vec(),
        vec![b"hp".to_vec(), b"42".to_vec(), b"-3".to_vec()],
    );
    let wire = a.encode();
    assert_eq!(wire, b"stat:hp:42:-3".to_vec());
    let back = Attribute::decode(&wire);
    assert_eq!(back.name, b"stat".to_vec());
    assert_eq!(back.args, vec![b"hp".to_vec(), b"42".to_vec(), b"-3".to_vec()]);
}

#[test]
fn decode_bare_name() {
    let back = Attribute::decode(&b"note".to_vec());
    assert_eq!(back.name, b"note".to_vec());
    assert!(back.args.is_empty());
}

#[test]
fn decode_keeps_empty_fields() {
    let back = Attribute::decode(&b"a::b".to_vec());
    assert_eq!(back.name, b"a".to_vec());
    assert_eq!(back.args, vec![b"".to_vec(), b"b".to_vec()]);
}

#[test]
fn decode_empty_string() {
    let back = Attribute::decode(&b"".to_vec());
    assert_eq!(back.name, b"".to_vec());
    assert!(back.args.is_empty());
}

#[test]
fn resolve_present_returns_stored_attribute() {
    let mut set = AttributeSet::new();
    set.insert(Attribute::new(b"control".to_vec(), vec![b"current".to_vec()]));
    set.insert(Attribute::new(b"status".to_vec(), vec![b"burn".to_vec()]));
    let got = set.resolve(&b"status".to_vec()).expect("key is present");
    assert_eq!(got.name, b"status".to_vec());
    assert_eq!(got.args, vec![b"burn".to_vec()]);
}

#[test]
fn resolve_absent_returns_not_found() {
    let mut set = AttributeSet::new();
    set.insert(Attribute::new(b"control".to_vec(), vec![b"current".to_vec()]));
    assert!(set.resolve(&b"affinity".to_vec()).is_none());
    assert!(AttributeSet::new().resolve(&b"anything".to_vec()).is_none());
}

#[test]
fn insert_same_key_replaces() {
    let mut set = AttributeSet::new();
    set.insert(Attribute::new(b"status".to_vec(), vec![b"burn".to_vec()]));
    set.insert(Attribute::new(b"status".to_vec(), vec![b"frozen".to_vec()]));
    assert_eq!(set.len(), 1);
    let got = set.resolve(&b"status".to_vec()).expect("key is present");
    assert_eq!(got.args, vec![b"frozen".to_vec()]);
}

#[test]
fn walking_the_set_visits_stored_attributes() {
    let mut set = AttributeSet::new();
    set.insert(Attribute::new(b"note".to_vec(), vec![b"hidden".to_vec()]));
    set.insert(Attribute::new(b"type".to_vec(), vec![b"plains".to_vec()]));
    let mut names: Vec<Vec<u8>> = Vec::new();
    for i in 0..set.len() {
        names.push(set.entry_at(i).name.clone());
    }
    names.sort();
    assert_eq!(names, vec![b"note".to_vec(), b"type".to_vec()]);
}

#[test]
fn set_len_counts_distinct_keys() {
    let mut set = AttributeSet::new();
    assert_eq!(set.len(), 0);
    set.insert(Attribute::new(b"a".to_vec(), vec![]));
    set.insert(Attribute::new(b"b".to_vec(), vec![]));
    set.insert(Attribute::new(b"a".to_vec(), vec![b"x".to_vec()]));
    assert_eq!(set.len(), 2);
}
