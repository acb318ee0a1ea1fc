use gitnum::order::string_le;

#[test]
fn string_order_matches_std() {
    let samples = ["", "a", "b", "ab", "abc", "B", "a/b", "a.b", "\u{e9}", "z", "\u{1f600}", "\u{ff}x"];
    for a in samples {
        for b in samples {
            let (sa, sb) = (a.to_string(), b.to_string());
            assert_eq!(string_le(&sa, &sb), sa <= sb, "{:?} <= {:?}", a, b);
        }
    }
}
