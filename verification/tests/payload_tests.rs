use dispresence::config::PresenceConfig;
use dispresence::payload::build_payload;

fn base_config() -> PresenceConfig {
    PresenceConfig {
        app_id: String::from("123456789"),
        details: String::from("editing"),
        state: String::from("a file"),
        party: (2, 5),
        image_large: (String::from("big"), String::from("big text")),
        image_small: (String::from("small"), String::from("small text")),
    }
}

#[test]
fn party_sentinel_zero_zero_excluded() {
    let mut c = base_config();
    c.party = (0, 0);
    let p = build_payload(&c);
    assert_eq!(p.party, None);
}

#[test]
fn party_sentinel_one_one_excluded() {
    let mut c = base_config();
    c.party = (1, 1);
    let p = build_payload(&c);
    assert_eq!(p.party, None);
}

#[test]
fn party_other_pairs_included_exactly() {
    let mut c = base_config();
    c.party = (1, 2);
    assert_eq!(build_payload(&c).party, Some((1, 2)));
    c.party = (10, 10);
    assert_eq!(build_payload(&c).party, Some((10, 10)));
    c.party = (3, 7);
    assert_eq!(build_payload(&c).party, Some((3, 7)));
}

#[test]
fn image_empty_sentinel_excluded() {
    let mut c = base_config();
    c.image_large = (String::new(), String::new());
    let p = build_payload(&c);
    assert!(p.image_large.is_none());
    assert_eq!(
        p.image_small,
        Some((String::from("small"), String::from("small text")))
    );
}

#[test]
fn image_none_sentinel_excluded() {
    let mut c = base_config();
    c.image_small = (String::from("none"), String::from("none"));
    let p = build_payload(&c);
    assert!(p.image_small.is_none());
    assert_eq!(
        p.image_large,
        Some((String::from("big"), String::from("big text")))
    );
}

#[test]
fn images_are_independent_both_ways() {
    let mut c = base_config();
    c.image_large = (String::new(), String::new());
    let p = build_payload(&c);
    assert!(p.image_large.is_none() && p.image_small.is_some());

    let mut c = base_config();
    c.image_small = (String::new(), String::new());
    let p = build_payload(&c);
    assert!(p.image_large.is_some() && p.image_small.is_none());
}

#[test]
fn mixed_sentinel_is_not_a_sentinel() {
    let mut c = base_config();
    c.image_large = (String::from("none"), String::new());
    let p = build_payload(&c);
    assert_eq!(
        p.image_large,
        Some((String::from("none"), String::new()))
    );
}

#[test]
fn texts_copied_verbatim() {
    let c = base_config();
    let p = build_payload(&c);
    assert_eq!(p.details, "editing");
    assert_eq!(p.state, "a file");
}

#[test]
fn well_formed_party_ranges() {
    let mut c = base_config();
    assert!(c.check_well_formed());
    c.party = (0, 0);
    assert!(c.check_well_formed());
    c.party = (0, 3);
    assert!(!c.check_well_formed());
    c.party = (4, 3);
    assert!(!c.check_well_formed());
    c.party = (1, 11);
    assert!(!c.check_well_formed());
    c.party = (10, 10);
    assert!(c.check_well_formed());
}
