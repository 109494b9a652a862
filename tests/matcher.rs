use launchdock::matcher::{fold_chars, rank};

fn ranked(names: &[&str], query: &str) -> Vec<String> {
    let v: Vec<&str> = names.to_vec();
    rank(&v, query).into_iter().map(|i| names[i].to_string()).collect()
}

#[test]
fn gv_ranks_photogravure_before_gnome_video() {
    let names = ["firefox", "photogravure", "gimp", "gnome-video"];
    assert_eq!(ranked(&names, "gv"), vec!["photogravure", "gnome-video"]);
}

#[test]
fn unmatched_query_gives_nothing() {
    assert!(ranked(&["firefox", "gimp"], "xyz").is_empty());
}

#[test]
fn empty_query_gives_nothing() {
    assert!(ranked(&["firefox", "gimp", "a"], "").is_empty());
}

#[test]
fn upper_and_lower_case_queries_rank_alike() {
    let names = ["GIMP", "Firefox", "gimp-help"];
    assert_eq!(ranked(&names, "GIM"), vec!["GIMP", "gimp-help"]);
    assert_eq!(ranked(&names, "gim"), ranked(&names, "GIM"));
}

#[test]
fn ranking_twice_gives_the_same_order() {
    let names = ["terminal", "term", "thermometer", "xterm", "stremio"];
    let first = ranked(&names, "trm");
    let second = ranked(&names, "trm");
    assert_eq!(first, second);
    assert_eq!(first, vec!["term", "xterm", "terminal", "stremio", "thermometer"]);
}

#[test]
fn equal_scores_keep_catalog_order() {
    assert_eq!(ranked(&["abc", "abd", "abe"], "ab"), vec!["abc", "abd", "abe"]);
    assert_eq!(ranked(&["zb", "yb"], "b"), vec!["zb", "yb"]);
}

#[test]
fn greedy_scan_takes_first_positions() {
    // "axb": 1000/3 + 1000/3 + 0 + 50 = 716.67
    // "xab": 1000/3 + 1000/2 + 200 + 25 = 1058.33
    assert_eq!(ranked(&["axb", "xab"], "ab"), vec!["xab", "axb"]);
    // single characters: brevity and early match only
    // "b": 1000 + 50 = 1050; "ab": 500 + 25 = 525; "bbbb": 250 + 50 = 300
    assert_eq!(ranked(&["bbbb", "ab", "b"], "b"), vec!["b", "ab", "bbbb"]);
}

#[test]
fn folding_lowers_ascii_letters_only() {
    assert_eq!(fold_chars("AzÉ"), vec!['a' as u32, 'z' as u32, 'É' as u32]);
}

#[test]
fn very_long_names_are_scored_exactly() {
    let long_a = format!("a{}b", "x".repeat(200_000));
    let long_b = format!("a{}b", "x".repeat(200_001));
    let names = [long_b.as_str(), long_a.as_str(), "zzab"];
    // "zzab": 250 + 500 + 200 + 50/3; the long names differ only by one
    // character of length and span, so the shorter one ranks first.
    assert_eq!(rank(&names.to_vec(), "ab"), vec![2, 1, 0]);
}

#[test]
fn brevity_counts_utf8_bytes() {
    // "éx": 1000/3 + 50/2 = 358.3 (three bytes); "xab": 1000/3 + 50 = 383.3
    assert_eq!(ranked(&["éx", "xab"], "x"), vec!["xab", "éx"]);
}
