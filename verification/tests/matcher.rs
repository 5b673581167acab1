//! Wildcard matching against concrete topic names.

use mqtt_broker::topic::match_topic;

// Matching subscriptions with literals and wildcards
#[test]
fn literal_subscription() {
    let subscription_matcher = "finance";
    let prefix_subscription_matcher = "/finance";
    assert_eq!(match_topic(subscription_matcher, "finance"), true);
    assert_eq!(match_topic(subscription_matcher, "finances"), false);
    assert_eq!(match_topic(subscription_matcher, "finance/"), false);
    assert_eq!(match_topic(subscription_matcher, "/finance"), false);
    assert_eq!(match_topic(prefix_subscription_matcher, "/finance"), true);
}

#[test]
fn single_level_wildcard() {
    let subscription_matcher = "finance/+";
    assert_eq!(match_topic(subscription_matcher, "finance/stocks"), true);
    assert_eq!(match_topic(subscription_matcher, "finance/commodities"), true);
    // should not match these
    assert_eq!(match_topic(subscription_matcher, "finance/commodities/oil"), false);
    assert_eq!(match_topic(subscription_matcher, "/finance/stocks"), false);
    assert_eq!(match_topic(subscription_matcher, "finance"), false);
}

#[test]
fn complex_cases() {
    let subscription_matcher = "users/+/device/+/permissions/#";
    assert!(match_topic(
        subscription_matcher,
        "users/john_123/device/samsung_galaxy/permissions"
    ));
    assert!(match_topic(
        subscription_matcher,
        "users/john_123/device/samsung galaxy/permissions/account/can_delete"
    ));
    assert!(match_topic(
        subscription_matcher,
        "users/john_123/device/samsung_galaxy/permissions/is_admin!!"
    ));
    // should not match these
    assert_eq!(
        match_topic(
            subscription_matcher,
            "users/john_123/device/samsung_galaxy/permission"
        ),
        false
    );
    assert_eq!(
        match_topic(
            subscription_matcher,
            "users/john_123/4/device/samsung_galaxy/permissions/is_admin!!"
        ),
        false
    );
    assert_eq!(
        match_topic(
            subscription_matcher,
            "users/john_123/device/permissions/is_admin!!"
        ),
        false
    );
}

#[test]
fn special_cases() {
    let subscription_matcher = "#";
    assert!(match_topic(
        subscription_matcher,
        "users/john_123/device/samsung_galaxy/permissions"
    ));
    assert!(match_topic(subscription_matcher, "users"));
    assert!(match_topic(subscription_matcher, "/users"));
    // handle +
    let subscription_matcher = "+";
    assert_eq!(match_topic(subscription_matcher, "users"), true);
    assert_eq!(match_topic(subscription_matcher, "users/john_123"), false);
    // handle +/+
    let subscription_matcher = "+/+";
    assert!(match_topic(subscription_matcher, "users/bob"));
    assert!(match_topic(subscription_matcher, "/users"));
    // handle /+
    let subscription_matcher = "/+";
    assert!(match_topic(subscription_matcher, "/users"));
    assert_eq!(match_topic(subscription_matcher, "users"), false);
    // handle other combinations
    assert!(match_topic("+/#", "users/bob"));
    assert!(match_topic("+/bob/#", "users/bob"));
}

#[test]
fn single_level_stays_in_its_level() {
    assert_eq!(match_topic("a/+", "a/b/c"), false);
    assert_eq!(match_topic("a/+", "a/b"), true);
    assert_eq!(match_topic("a/#", "a"), true);
    assert_eq!(match_topic("a/#", "a/x"), true);
    assert_eq!(match_topic("a/#", "a/x/y"), true);
}

#[test]
fn invalid_wildcards() {
    assert_eq!(match_topic("//+", "finance"), false);
    assert_eq!(match_topic("#+", "finances"), false);
    assert_eq!(match_topic("#/+", "finance"), false);
    assert_eq!(match_topic("+/#e", "finance"), false);
    assert_eq!(match_topic("#/#", "/finance/other"), false);
    assert_eq!(match_topic("/finance/+/", "/finance/hello"), false);
}

#[test]
fn invalid_topics() {
    assert_eq!(match_topic("#", "++"), false);
    assert_eq!(match_topic("#", "#/#"), false);
    // A trailing empty level is a level: the catch-all admits it.
    assert_eq!(match_topic("#", "finance/"), true);
    assert_eq!(match_topic("#", "/finance/"), true);
    assert_eq!(match_topic("#", "/finance/hello+"), false);
}

#[test]
fn empty_levels_are_levels() {
    // A wildcard-free topic with an empty final level matches itself.
    assert_eq!(match_topic("finance/", "finance/"), true);
    assert_eq!(match_topic("/", "/"), true);
    assert_eq!(match_topic("+/+", "finance/"), true);
    // The empty string is not a topic.
    assert_eq!(match_topic("#", ""), false);
}

// Matching subscriptions with literals and wildcards
#[test]
fn topic_tree_literal_subscription() {
    let subscription_matcher = "finance";
    let prefix_subscription_matcher = "/finance";
    assert_eq!(match_topic(subscription_matcher, "finance"), true);
    assert_eq!(match_topic(subscription_matcher, "finances"), false);
    assert_eq!(match_topic(subscription_matcher, "finance/"), false);
    assert_eq!(match_topic(subscription_matcher, "/finance"), false);
    assert_eq!(match_topic(prefix_subscription_matcher, "/finance"), true);
}

#[test]
fn topic_tree_single_level_wildcard() {
    let subscription_matcher = "finance/+";
    assert_eq!(match_topic(subscription_matcher, "finance/stocks"), true);
    assert_eq!(match_topic(subscription_matcher, "finance/commodities"), true);
    // should not match these
    assert_eq!(match_topic(subscription_matcher, "finance/commodities/oil"), false);
    assert_eq!(match_topic(subscription_matcher, "/finance/stocks"), false);
    assert_eq!(match_topic(subscription_matcher, "finance"), false);
}

#[test]
fn topic_tree_complex_cases() {
    let subscription_matcher = "users/+/device/+/permissions/#";
    assert!(match_topic(
        subscription_matcher,
        "users/john_123/device/samsung_galaxy/permissions"
    ));
    assert!(match_topic(
        subscription_matcher,
        "users/john_123/device/samsung galaxy/permissions/account/can_delete"
    ));
    assert!(match_topic(
        subscription_matcher,
        "users/john_123/device/samsung_galaxy/permissions/is_admin!!"
    ));
    // should not match these
    assert_eq!(
        match_topic(
            subscription_matcher,
            "users/john_123/device/samsung_galaxy/permission"
        ),
        false
    );
    assert_eq!(
        match_topic(
            subscription_matcher,
            "users/john_123/4/device/samsung_galaxy/permissions/is_admin!!"
        ),
        false
    );
    assert_eq!(
        match_topic(
            subscription_matcher,
            "users/john_123/device/permissions/is_admin!!"
        ),
        false
    );
}

#[test]
fn topic_tree_special_cases() {
    let subscription_matcher = "#";
    assert!(match_topic(
        subscription_matcher,
        "users/john_123/device/samsung_galaxy/permissions"
    ));
    assert!(match_topic(subscription_matcher, "users"));
    assert!(match_topic(subscription_matcher, "/users"));
    // handle +
    let subscription_matcher = "+";
    assert_eq!(match_topic(subscription_matcher, "users"), true);
    assert_eq!(match_topic(subscription_matcher, "users/john_123"), false);
    // handle +/+
    let subscription_matcher = "+/+";
    assert!(match_topic(subscription_matcher, "users/bob"));
    assert!(match_topic(subscription_matcher, "/users"));
    // handle /+
    let subscription_matcher = "/+";
    assert!(match_topic(subscription_matcher, "/users"));
    assert_eq!(match_topic(subscription_matcher, "users"), false);
}
