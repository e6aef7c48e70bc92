use tv_digest::names::name_precedes;

#[test]
fn name_precedes_goes_by_the_first_difference() {
    assert!(name_precedes("A", "B"));
    assert!(!name_precedes("B", "A"));
    assert!(name_precedes("Aa", "Ab"));
    assert!(name_precedes("Ab", "B"));
    assert!(name_precedes("Zebra", "apple"));
    assert!(!name_precedes("apple", "Zebra"));
    assert!(name_precedes("10", "9"));
}

#[test]
fn name_precedes_puts_a_prefix_first() {
    assert!(name_precedes("", "A"));
    assert!(!name_precedes("A", ""));
    assert!(name_precedes("Star", "Star Trek"));
    assert!(!name_precedes("Star Trek", "Star"));
}

#[test]
fn name_precedes_nothing_equal() {
    assert!(!name_precedes("", ""));
    assert!(!name_precedes("A", "A"));
    assert!(!name_precedes("Star Trek", "Star Trek"));
    assert!(!name_precedes("日本", "日本"));
}

#[test]
fn name_precedes_orders_as_strings_are_ordered() {
    let names = [
        "", " ", "0", "10", "9", "A", "AA", "Ab", "B", "Z", "a", "aB", "ab", "b", "z", "~",
        "\u{7f}", "\u{80}", "É", "é", "ÿ", "\u{7ff}", "\u{800}", "日本", "日本語", "\u{d7ff}",
        "\u{e000}", "\u{ffff}", "\u{10000}", "\u{10ffff}", "a\u{10000}", "a\u{ffff}", "aé", "az",
    ];
    for a in names {
        for b in names {
            assert_eq!(name_precedes(a, b), a < b);
        }
    }
}
