use soma_health::merge::{namespace_frame, namespace_path, provider_side, title_case};
use soma_health::text::{
    begins_with, characters, decimal_text, drop_prefixes, find_first, finishes_with,
    hexadecimal_padded_text, hexadecimal_text, join, lower, precedes, replace_first, same,
};

#[test]
fn texts_are_compared_and_searched() {
    assert!(same("", ""));
    assert!(same("äb", "äb"));
    assert!(!same("ab", "abc"));
    assert!(begins_with("body/arm", "body"));
    assert!(!begins_with("bod", "body"));
    assert!(finishes_with("a/error", "/error"));
    assert!(!finishes_with("error", "/error"));
    assert_eq!(find_first(&characters("xabab"), &characters("ab")), Some(1));
    assert_eq!(find_first(&characters("xab"), &characters("ba")), None);
    assert_eq!(find_first(&characters("xab"), &characters("")), Some(0));
    assert_eq!(lower("RiGhT-Ä"), characters("right-Ä"));
    assert_eq!(join("ab", "c"), "abc");
}

#[test]
fn texts_are_ordered_as_the_standard_library_orders_them() {
    let all = ["", "a", "ab", "b", "B", "left", "left_2", "right", "z", "é", "漢", "😀", "\u{ffff}"];
    for a in all {
        for b in all {
            assert_eq!(precedes(a, b), a < b, "{a} {b}");
        }
    }
}

#[test]
fn numerals_are_those_of_format() {
    for n in [0usize, 1, 6, 9, 10, 14, 100, 12345, usize::MAX] {
        assert_eq!(decimal_text(n), format!("{n}"));
    }
    for n in [0u32, 7, 15, 16, 0x1F, 0xAB, 0x100, u32::MAX] {
        assert_eq!(hexadecimal_text(n), format!("{n:X}"));
        assert_eq!(hexadecimal_padded_text(n), format!("{n:02X}"));
    }
}

#[test]
fn replacing_takes_the_first_occurrence_only() {
    let cases = [
        ("body/arm/x/body/arm", "body/arm", "L"),
        ("xbody/arm", "body/arm", "body/arm/arm"),
        ("none", "body/arm", "L"),
        ("", "a", "b"),
        ("abc", "", "-"),
        ("über/body/arm", "body/arm", "ü"),
    ];
    for (text, part, by) in cases {
        assert_eq!(replace_first(text, part, by), text.replacen(part, by, 1));
    }
}

#[test]
fn all_prefixes_are_dropped() {
    for text in ["joint_1", "joint_joint_2", "x", "", "joint_", "joint"] {
        assert_eq!(drop_prefixes(text, "joint_"), text.trim_start_matches("joint_"));
    }
    assert_eq!(drop_prefixes("abc", ""), "abc");
}

#[test]
fn title_case_raises_the_first_character() {
    assert_eq!(title_case("left"), "Left");
    assert_eq!(title_case("Right"), "Right");
    assert_eq!(title_case("7up"), "7up");
    assert_eq!(title_case(""), "");
    assert_eq!(title_case("élan"), "Élan");
    assert_eq!(title_case("ßa"), "SSa");
    assert_eq!(title_case("漢字"), "漢字");
}

#[test]
fn sides_come_from_provider_ids() {
    assert_eq!(provider_side("left_piper"), "left");
    assert_eq!(provider_side("Piper-RIGHT"), "right");
    assert_eq!(provider_side("left_of_right"), "right");
    assert_eq!(provider_side("piper"), "arm");
    assert_eq!(provider_side(""), "arm");
}

#[test]
fn paths_move_to_the_arm() {
    assert_eq!(namespace_path("body", "body/left_arm"), "body");
    assert_eq!(namespace_path("", "body/left_arm"), "");
    assert_eq!(namespace_path("body/arm", "body/left_arm"), "body/left_arm");
    assert_eq!(
        namespace_path("body/arm/joint_2", "body/left_arm"),
        "body/left_arm/joint_2"
    );
    assert_eq!(namespace_path("head", "body/left_arm"), "head");
}

#[test]
fn frames_carry_the_side() {
    assert_eq!(namespace_frame("arm_base_link", "left"), "left_base_link");
    assert_eq!(namespace_frame("gripper_base", "left"), "left_gripper_base");
    assert_eq!(namespace_frame("gripper", "right"), "right_gripper_base");
    assert_eq!(namespace_frame("joint_3", "right"), "right_joint3");
    assert_eq!(namespace_frame("joint_joint_3", "right"), "right_joint3");
    assert_eq!(namespace_frame("base_link", "right"), "base_link");
}
