use pulse::protocol::{
    is_valid_topic_filter, is_valid_topic_name, match_filter, shared_subscription_filter,
    shared_subscription_group, topic_matches,
};

#[test]
fn validates_topic_filters() {
    assert!(is_valid_topic_filter("sensors/+/temperature"));
    assert!(is_valid_topic_filter("devices/#"));
    assert!(is_valid_topic_filter("#"));
    assert!(!is_valid_topic_filter("devices/#/state"));
    assert!(!is_valid_topic_filter("devices/foo#"));
    assert!(!is_valid_topic_filter("devices/+foo"));
}

#[test]
fn matches_topic_filters() {
    assert!(topic_matches(
        "sensors/+/temperature",
        "sensors/a/temperature"
    ));
    assert!(topic_matches("devices/#", "devices/a/state"));
    assert!(topic_matches("devices/#", "devices"));
    assert!(topic_matches("$SYS/#", "$SYS/broker/uptime"));
    assert!(!topic_matches("#", "$SYS/broker/uptime"));
    assert!(!topic_matches("+/broker/uptime", "$SYS/broker/uptime"));
    assert!(!topic_matches(
        "sensors/+/temperature",
        "sensors/a/humidity"
    ));
    assert!(!topic_matches("devices/+", "devices/a/state"));
}

#[test]
fn topic_names_hold_no_wildcards() {
    assert!(is_valid_topic_name("devices/a"));
    assert!(is_valid_topic_name("/"));
    assert!(!is_valid_topic_name(""));
    assert!(!is_valid_topic_name("devices/+"));
    assert!(!is_valid_topic_name("devices/#"));
}

#[test]
fn empty_levels_count() {
    assert!(topic_matches("a//b", "a//b"));
    assert!(topic_matches("a/+/b", "a//b"));
    assert!(!topic_matches("a/+", "a"));
    assert!(topic_matches("+/+", "/a"));
    assert!(!topic_matches("+", "/a"));
}

#[test]
fn shared_filters_name_a_group_and_a_filter() {
    assert_eq!(
        shared_subscription_group("$share/group/devices/+"),
        Some("group")
    );
    assert_eq!(
        shared_subscription_filter("$share/group/devices/+"),
        Some("devices/+")
    );
    assert_eq!(shared_subscription_group("devices/+"), None);
    assert_eq!(shared_subscription_filter("$share/group"), None);
    assert_eq!(match_filter("$share/group/a/b"), "a/b");
    assert_eq!(match_filter("a/b"), "a/b");
}
