use wifi_rs::text::{chars_of, contains, equals_str, split_lines, split_words, string_of};

fn strs(v: Vec<Vec<char>>) -> Vec<String> {
    v.into_iter().map(|w| w.into_iter().collect()).collect()
}

#[test]
fn words_split_on_any_whitespace() {
    let w = split_words(&chars_of("  a\tbb \u{a0}ccc\u{3000}d  "));
    assert_eq!(strs(w), vec!["a", "bb", "ccc", "d"]);
    assert!(split_words(&chars_of("   ")).is_empty());
    assert!(split_words(&chars_of("")).is_empty());
}

#[test]
fn lines_like_str_lines() {
    for s in ["", "a", "a\n", "a\r\nb", "a\n\nb\n", "a\r\n\r\nb\r", "\n", "x\ry\n"] {
        let got = strs(split_lines(&chars_of(s)));
        let want: Vec<String> = s.lines().map(|l| l.to_string()).collect();
        assert_eq!(got, want, "input {:?}", s);
    }
}

#[test]
fn substring_search() {
    let h = chars_of("Device successfully activated.");
    assert!(contains(&h, "successfully activated"));
    assert!(contains(&h, ""));
    assert!(contains(&h, "."));
    assert!(!contains(&h, "Successfully"));
    assert!(!contains(&chars_of("ab"), "abc"));
    assert!(contains(&chars_of(""), ""));
}

#[test]
fn literal_comparison_and_strings() {
    assert!(equals_str(&chars_of("SSID"), "SSID"));
    assert!(!equals_str(&chars_of("BSSID"), "SSID"));
    assert!(!equals_str(&chars_of("SSI"), "SSID"));
    assert_eq!(string_of(&chars_of("héllo")), "héllo");
}
