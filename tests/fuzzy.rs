use vonal::fuzzy::get_fuzzy_info;

#[test]
fn test_get_fuzzy_info() {
    let name = "chromium".to_string();
    let query = "chomium".to_string();
    let info = get_fuzzy_info(&query, &name);

    assert_eq!(info.segments, vec!["ch", "omium"]);
    assert!(info.fitness > 0);
}

#[test]
fn test_fitness1() {
    let info1 = get_fuzzy_info("clo", "chromium");
    let info2 = get_fuzzy_info("clo", "chrootas");
    let info3 = get_fuzzy_info("clo", "chromapr");
    println!("{:?}", info1);
    println!("{:?}", info2);
    println!("{:?}", info3);

    assert_eq!(info1.segments, vec!["c", "o"]);
    assert_eq!(info1.fitness, info2.fitness);
    assert_eq!(info1.fitness, info3.fitness);
    assert_eq!(info2.fitness, info3.fitness);
}

#[test]
fn test_fitness2() {
    let info1 = get_fuzzy_info("slack", "badlocks");
    let info2 = get_fuzzy_info("slack", "com.slack.Slack");

    assert!(info1.fitness < info2.fitness);
}

#[test]
fn test_fitness3() {
    let info1 = get_fuzzy_info("chromim", "commmium Web Browser");
    let info2 = get_fuzzy_info("chromim", "Chromium Web Browser");
    println!("{}", info1.fitness);
    println!("{}", info2.fitness);

    assert!(info1.fitness < info2.fitness);
}

#[test]
fn test_shorter_first() {
    let info1 = get_fuzzy_info("files", "filess");
    let info2 = get_fuzzy_info("files", "files");
    println!("{}", info1.fitness);
    println!("{}", info2.fitness);

    assert!(info1.fitness < info2.fitness);
}

#[test]
fn test_fitness4() {
    let info1 = get_fuzzy_info("files", "something files");
    let info2 = get_fuzzy_info("files", "files something");
    println!("{}", info1.fitness);
    println!("{}", info2.fitness);

    assert!(info1.fitness < info2.fitness);
}

#[test]
fn test_fitness5() {
    let info1 = get_fuzzy_info("clomium", "alikialiki");
    let info2 = get_fuzzy_info("clomium", "Chromium/usr/bin/chromium %UWeb Browser");
    println!("{}", info1.fitness);
    println!("{}", info2.fitness);

    assert!(info1.fitness < info2.fitness);
}

#[test]
fn test_fitness6() {
    let info1 = get_fuzzy_info("clomiumbrowser", "DevhelpdevhelpAPI Documentation Browser");
    let info2 = get_fuzzy_info("clomiumbrowser", "Chromium/usr/bin/chromium %UWeb Browser");
    println!("{}", info1.fitness);
    println!("{}", info2.fitness);
    assert!(info1.fitness < info2.fitness);
}

#[test]
fn test_fitness7() {
    let info1 = get_fuzzy_info("clomium", "commcomm");
    let info2 = get_fuzzy_info("clomium", "Chromium/usr/bin/chromium %UWeb Browser");
    println!("{}", info1.fitness);
    println!("{}", info2.fitness);
    assert!(info1.fitness < info2.fitness);
}

#[test]
fn test_fitness8() {
    let info1 = get_fuzzy_info("clomium", "gcloud-crc32cgcloud-crc32c");
    let info2 = get_fuzzy_info("clomium", "Chromium/usr/bin/chromium %UWeb Browser");
    println!("{}", info1.fitness);
    println!("{}", info2.fitness);
    assert!(info1.fitness < info2.fitness);
}

#[test]
fn test_distance() {
    let info1 = get_fuzzy_info("ac", "abcdefghijkl");
    let info2 = get_fuzzy_info("ad", "abcdefghijkl");
    let info3 = get_fuzzy_info("ae", "abcdefghijkl");
    println!("{}", info1.fitness);
    println!("{}", info2.fitness);
    println!("{}", info3.fitness);
    assert!(info1.fitness > info2.fitness);
    assert!(info2.fitness > info3.fitness);
}

#[test]
fn empty_query_or_haystack_scores_zero() {
    for (q, h) in [("", "chromium"), ("chromium", ""), ("", "")] {
        let info = get_fuzzy_info(q, h);
        assert_eq!(info.fitness, 0);
        assert!(info.segments.is_empty());
    }
}

#[test]
fn no_common_character_scores_zero() {
    let info = get_fuzzy_info("xyz", "chromium");
    assert_eq!(info.fitness, 0);
    assert!(info.segments.is_empty());
}

#[test]
fn exact_fitness_of_full_match() {
    // one segment of 5: (5 + 4) * 1000, first match at 0, no mismatch, length 5
    assert_eq!(get_fuzzy_info("files", "files").fitness, 9000 - 5);
}

#[test]
fn exact_fitness_with_gap() {
    // "ac" in "abc": segments a, c; one mismatch; length 3
    let info = get_fuzzy_info("ac", "abc");
    assert_eq!(info.segments, vec!["a", "c"]);
    assert_eq!(info.fitness, 2000 - 10 - 3);
}

#[test]
fn mismatches_before_first_match_count() {
    // "b" in "ab": first match at 1, one mismatch, length 2
    assert_eq!(get_fuzzy_info("b", "ab").fitness, 1000 - 30 - 10 - 2);
}

#[test]
fn stray_character_is_dropped() {
    let info = get_fuzzy_info("clomium", "chromium");
    assert_eq!(info.segments, vec!["c", "omium"]);
}

#[test]
fn matching_ignores_ascii_case() {
    let info = get_fuzzy_info("CHROME", "chrome");
    assert_eq!(info.segments, vec!["chrome"]);
    assert_eq!(info.fitness, get_fuzzy_info("chrome", "chrome").fitness);
}

#[test]
fn segments_hold_haystack_characters() {
    let info = get_fuzzy_info("slack", "com.slack.Slack");
    assert_eq!(info.segments, vec!["slack"]);
}

#[test]
fn restart_finds_longer_run() {
    // the first attempt gives a, b split; a later start gives "ab" whole
    let info = get_fuzzy_info("ab", "axab");
    assert_eq!(info.segments, vec!["ab"]);
    assert_eq!(info.fitness, 3000 - 60 - 10 - 4);
}

#[test]
fn haystack_is_cut_to_127_characters() {
    let long = format!("{}z", "a".repeat(127));
    let info = get_fuzzy_info("z", &long);
    assert_eq!(info.fitness, 0);
    assert!(info.segments.is_empty());
    let fits = format!("{}z", "a".repeat(126));
    assert!(get_fuzzy_info("z", &fits).fitness != 0);
}
