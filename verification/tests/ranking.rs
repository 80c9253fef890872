use gossh::hosts::List;
use gossh::similarity::ONE_BITS;
use gossh::ranking::{
    char_extract, digit_chars, is_match, key_of_score, letter_chars, num_extract, order_by_score,
    rank, retain_matching, sort_by_score,
};

fn record(alias: &str, display_name: &str) -> List {
    List {
        score: 0,
        hostname: format!("{}.example.org", display_name),
        alias: alias.to_string(),
        display_name: display_name.to_string(),
    }
}

fn scored(alias: &str, score: f64) -> List {
    List {
        score: score.to_bits(),
        hostname: "h".to_string(),
        alias: alias.to_string(),
        display_name: "d".to_string(),
    }
}

fn aliases(records: &[List]) -> Vec<&str> {
    records.iter().map(|r| r.alias.as_str()).collect()
}

fn fleet() -> Vec<List> {
    vec![
        record("a", "pirouz100"),
        record("b", "yooz100"),
        record("c", "web"),
        record("d", "yooz200"),
        record("e", "10.0.0.5"),
        record("f", "Web2"),
    ]
}

#[test]
fn projections_keep_order_and_case() {
    assert_eq!(num_extract("yooz100"), "100");
    assert_eq!(char_extract("yooz100"), "yooz");
    assert_eq!(num_extract("1a2b3"), "123");
    assert_eq!(char_extract("1a2B3"), "aB");
    assert_eq!(num_extract("10.0.0.5"), "10005");
    assert_eq!(char_extract("10.0.0.5"), "");
    assert_eq!(num_extract(""), "");
    assert_eq!(char_extract("-_. \u{6f1}\u{633}"), "");
    assert_eq!(num_extract("\u{6f1}\u{6f2}9"), "9");
    assert_eq!(char_extract("AZaz@[`{"), "AZaz");
    assert_eq!(num_extract("/09:"), "09");
    let v: Vec<char> = "a1b2".chars().collect();
    assert_eq!(digit_chars(&v), vec!['1', '2']);
    assert_eq!(letter_chars(&v), vec!['a', 'b']);
}

#[test]
fn query_with_digits_first_matches_name_with_digits_last() {
    assert!(is_match("yooz100", "100ooz"));
    assert!(is_match("yooz100", "y1o0o0z"));
    assert!(!is_match("pirouz100", "100ooz"));
    assert!(is_match("pirouz100", "100ouz"));
    assert!(!is_match("yooz100", "101"));
    assert!(!is_match("yooz100", "zoo"));
    assert!(!is_match("yooz100", "Yooz"));
    assert!(is_match("yooz100", ""));
    assert!(is_match("", ""));
    assert!(!is_match("", "a"));
    assert!(is_match("web", "-. "));
}

#[test]
fn score_is_the_similarity_of_query_and_display_name() {
    let records = vec![record("a", "cheese fries"), record("b", "yooz100"), record("c", "web")];
    let out = rank(&records, "cheese");
    assert_eq!(aliases(&out), vec!["a"]);
    assert_eq!(out[0].score, strsim::jaro_winkler("cheese", "cheese fries").to_bits());
    assert_ne!(out[0].score, strsim::jaro_winkler("cheese fries", "cheese.example.org").to_bits());
    let out = rank(&records, "web");
    assert_eq!(out[0].score, 1.0f64.to_bits());
    let out = rank(&records, "y1");
    assert_eq!(aliases(&out), vec!["b"]);
    let s = f64::from_bits(out[0].score);
    assert_eq!(s, strsim::jaro_winkler("y1", "yooz100"));
    assert!(0.0 < s && s < 1.0);
    let out = rank(&records, "");
    assert!(out.iter().all(|r| r.score == 0.0f64.to_bits()));
}

#[test]
fn a_record_shows_as_its_alias() {
    assert_eq!(record("box", "10.0.0.5").to_string(), "box");
    assert_eq!(List::default().to_string(), "");
}

#[test]
fn score_keys_order_as_the_numbers_do() {
    let values = [
        f64::NEG_INFINITY,
        -1.0e300,
        -1.5,
        -1.0,
        -f64::MIN_POSITIVE,
        -0.0,
        0.0,
        f64::MIN_POSITIVE,
        1.0e-9,
        0.5,
        0.866,
        1.0,
        2.0,
        f64::MAX,
        f64::INFINITY,
    ];
    for a in values {
        for b in values {
            let (ka, kb) = (key_of_score(a.to_bits()), key_of_score(b.to_bits()));
            assert_eq!(ka < kb, a < b, "{} < {}", a, b);
            assert_eq!(ka == kb, a == b, "{} == {}", a, b);
        }
    }
}

#[test]
fn score_key_of_no_number_is_the_lowest() {
    let quiet = f64::NAN.to_bits();
    let other = 0xFFF8_0000_0000_0001u64;
    let signalling = 0x7FF0_0000_0000_0001u64;
    for bits in [quiet, other, signalling, u64::MAX, 0x7FFF_FFFF_FFFF_FFFF] {
        assert!(f64::from_bits(bits).is_nan());
        assert_eq!(key_of_score(bits), 0);
    }
    assert!(key_of_score(f64::NEG_INFINITY.to_bits()) > 0);
    assert_eq!(key_of_score(0.0f64.to_bits()), 0x8000_0000_0000_0000);
    assert_eq!(key_of_score((-0.0f64).to_bits()), 0x8000_0000_0000_0000);
    assert_eq!(key_of_score(1.0f64.to_bits()), 0xBFF0_0000_0000_0000);
    assert_eq!(key_of_score((-1.0f64).to_bits()), 0x4010_0000_0000_0000);
}

#[test]
fn order_lists_positions_by_descending_score() {
    let scores: Vec<u64> = [0.2, 0.9, 0.2, 1.0, 0.0, 0.9].iter().map(|s: &f64| s.to_bits()).collect();
    assert_eq!(order_by_score(&scores), vec![3, 1, 5, 0, 2, 4]);
    assert_eq!(order_by_score(&Vec::new()), Vec::<usize>::new());
    assert_eq!(order_by_score(&vec![7]), vec![0]);
}

#[test]
fn sort_is_descending_and_stable() {
    let items = vec![
        scored("a", 0.5),
        scored("b", 0.9),
        scored("c", 0.5),
        scored("d", 0.1),
        scored("e", 0.9),
        scored("f", 0.5),
    ];
    let out = sort_by_score(&items);
    assert_eq!(aliases(&out), vec!["b", "e", "a", "c", "f", "d"]);
    assert_eq!(out[0], items[1]);
    assert_eq!(aliases(&items), vec!["a", "b", "c", "d", "e", "f"]);
}

#[test]
fn sort_puts_what_cannot_be_compared_last_and_level() {
    let items = vec![
        scored("n1", f64::NAN),
        scored("x", 0.3),
        scored("n2", -f64::NAN),
        scored("zero", 0.0),
        scored("neg", -1.0),
        scored("n3", f64::NAN),
        scored("top", 1.0),
    ];
    let out = sort_by_score(&items);
    assert_eq!(aliases(&out), vec!["top", "x", "zero", "neg", "n1", "n2", "n3"]);
}

#[test]
fn sort_of_nothing_and_of_level_scores() {
    assert!(sort_by_score(&Vec::new()).is_empty());
    let items = vec![scored("a", 0.0), scored("b", -0.0), scored("c", 0.0)];
    assert_eq!(aliases(&sort_by_score(&items)), vec!["a", "b", "c"]);
}

#[test]
fn ranking_retains_scores_and_sorts() {
    let records = fleet();
    let out = rank(&records, "yooz");
    assert_eq!(aliases(&out), vec!["b", "d"]);
    for r in &out {
        assert_eq!(r.score, strsim::jaro_winkler("yooz", &r.display_name).to_bits());
        assert!(f64::from_bits(r.score) > 0.8);
    }
    let out = rank(&records, "200");
    assert_eq!(aliases(&out), vec!["d"]);
    let out = rank(&records, "web");
    assert_eq!(aliases(&out), vec!["c"]);
    assert_eq!(out[0].score, 1.0f64.to_bits());
    let out = rank(&records, "eb");
    assert_eq!(aliases(&out), vec!["f", "c"]);
    assert_eq!(out[0].score, strsim::jaro_winkler("eb", "Web2").to_bits());
    assert_eq!(out[1].score, 0.0f64.to_bits());
    assert!(f64::from_bits(out[0].score) > f64::from_bits(out[1].score));
}

#[test]
fn ranking_leaves_the_records_as_they_are() {
    let records = fleet();
    let _ = rank(&records, "yooz1");
    assert_eq!(records, fleet());
    assert!(records.iter().all(|r| r.score == 0));
}

#[test]
fn every_ranked_record_contains_the_projections_of_the_query() {
    let records = fleet();
    for query in ["", "1", "00", "oo", "z1", "100ooz", "w", "e", "W2", "5", "pz", "x"] {
        let out = rank(&records, query);
        for r in &out {
            assert!(num_extract(&r.display_name).contains(&num_extract(query)));
            assert!(char_extract(&r.display_name).contains(&char_extract(query)));
        }
        let retained = records.iter().filter(|r| is_match(&r.display_name, query)).count();
        assert_eq!(out.len(), retained);
        for pair in out.windows(2) {
            assert!(key_of_score(pair[0].score) >= key_of_score(pair[1].score));
        }
    }
}

#[test]
fn empty_query_retains_every_record() {
    let records = fleet();
    let out = rank(&records, "");
    assert_eq!(out.len(), records.len());
    assert_eq!(aliases(&out), vec!["a", "b", "c", "d", "e", "f"]);
    for r in &out {
        assert_eq!(r.score, 0.0f64.to_bits());
    }
    let mut with_nameless = fleet();
    with_nameless.push(record("g", ""));
    let out = rank(&with_nameless, "");
    assert_eq!(aliases(&out), vec!["g", "a", "b", "c", "d", "e", "f"]);
    assert_eq!(out[0].score, 1.0f64.to_bits());
}

#[test]
fn records_of_level_score_keep_their_order() {
    let records = vec![
        record("first", "alpha7"),
        record("second", "beta"),
        record("third", "alpha7"),
        record("fourth", "alpha7"),
    ];
    let out = rank(&records, "alpha");
    assert_eq!(aliases(&out), vec!["first", "third", "fourth"]);
    assert_eq!(out[0].score, out[1].score);
    assert_eq!(out[1].score, out[2].score);
}

#[test]
fn ranking_of_nothing_and_query_without_match() {
    assert!(rank(&Vec::new(), "").is_empty());
    assert!(rank(&Vec::new(), "abc").is_empty());
    assert!(rank(&fleet(), "nomatch").is_empty());
    assert!(rank(&fleet(), "999").is_empty());
}

#[test]
fn every_score_is_a_double_from_zero_to_one() {
    assert_eq!(ONE_BITS, 1.0f64.to_bits());
    let names = [
        "", "a", "aa", "ab", "ba", "abc", "abcd", "abcde", "abcdef", "abcdefg", "aabb", "abab",
        "web", "web1", "web12", "web123", "yooz100", "pirouz100", "10.0.0.5", "10.0.0.50",
        "alpha-beta-gamma-delta", "alpha-beta-gamma-delta-epsilon", "\u{633}\u{644}\u{627}\u{645}",
    ];
    let records: Vec<List> = names.iter().map(|n| record("x", n)).collect();
    let mut queries: Vec<String> = names.iter().map(|n| n.to_string()).collect();
    for n in names {
        for cut in 0..n.chars().count() {
            queries.push(n.chars().take(cut).collect());
            queries.push(n.chars().skip(cut).collect());
        }
    }
    for query in &queries {
        for r in rank(&records, query) {
            let score = f64::from_bits(r.score);
            assert!(r.score <= ONE_BITS, "{:?} {:?}", query, r.display_name);
            assert!((0.0..=1.0).contains(&score));
            if *query == r.display_name {
                assert_eq!(score, 1.0);
            }
        }
    }
}

#[test]
fn retained_records_are_scored_and_keep_their_order() {
    let records = fleet();
    let out = retain_matching(&records, "0");
    assert_eq!(aliases(&out), vec!["a", "b", "d", "e"]);
    for r in &out {
        assert_eq!(r.score, strsim::jaro_winkler("0", &r.display_name).to_bits());
    }
    assert_eq!(aliases(&retain_matching(&records, "")), vec!["a", "b", "c", "d", "e", "f"]);
    assert!(retain_matching(&records, "q").is_empty());
    assert!(retain_matching(&Vec::new(), "").is_empty());
    assert_eq!(sort_by_score(&retain_matching(&records, "e")), rank(&records, "e"));
}
