use trigram_sim::best_match;
use trigram_sim::compact_trigram;
use trigram_sim::legacy_crc32;
use trigram_sim::score_all;
use trigram_sim::similarity;
use trigram_sim::similarity_batch;
use trigram_sim::similarity_from_sets;
use trigram_sim::trigrams;
use trigram_sim::Score;
use trigram_sim::SearchError;

/// The 32-bit float value of a rational score, 0/0 read as 0.
fn score_f32(s: Score) -> f32 {
    if s.total == 0 {
        0.0
    } else {
        (s.shared as f64 / s.total as f64) as f32
    }
}

// Helper to compute similarity using internal functions
fn compute_similarity(a: &str, b: &str) -> f32 {
    let a_set = trigrams(a);
    let b_set = trigrams(b);
    score_f32(similarity_from_sets(&a_set, &b_set))
}

#[test]
fn test_similarity_identical() {
    assert_eq!(compute_similarity("hello", "hello"), 1.0);
}

#[test]
fn test_similarity_empty() {
    assert_eq!(compute_similarity("", ""), 0.0);
}

#[test]
fn test_similarity_partial() {
    let score = compute_similarity("hello", "hallo");
    assert!(score > 0.0 && score < 1.0);
}

#[test]
fn test_trigrams_basic() {
    let set = trigrams("hello");
    // Should have trigrams: "  h", " he", "hel", "ell", "llo", "lo "
    assert_eq!(set.len(), 6);
}

#[test]
fn test_trigrams_unicode() {
    // Test Turkish dotless i handling (İ → i when lowercased, with \u{0307} removed)
    let set1 = trigrams("İstanbul");
    let set2 = trigrams("istanbul");
    // After case folding and \u{0307} removal, the trigram SETS should be identical
    // because İ lowercases to "i" + "\u{0307}", and we filter out \u{0307}
    assert_eq!(
        set1.items(),
        set2.items(),
        "İstanbul and istanbul should produce identical trigram sets"
    );
    // And thus similarity should be 1.0
    let score = compute_similarity("İstanbul", "istanbul");
    assert_eq!(score, 1.0, "Score should be 1.0, was {}", score);
}

#[test]
fn test_compact_trigram_ascii() {
    let result = compact_trigram('a', 'b', 'c');
    assert_eq!(result, [b'a', b'b', b'c']);
}

#[test]
fn test_compact_trigram_unicode() {
    // Multi-byte chars should use CRC32
    let result = compact_trigram('é', 'é', 'é');
    // Should not be simple bytes, should be CRC32 based
    assert_ne!(result[0], 0);
}

#[test]
fn test_legacy_crc32() {
    // Known CRC32 value for "abc"
    let crc = legacy_crc32(b"abc");
    // PostgreSQL's legacy CRC32 should produce consistent results
    assert_ne!(crc, 0);
}

#[test]
fn test_pg_similarity_cases() {
    // These pairs should have POSITIVE similarity (same script, accent differences)
    let positive_similarity_cases = vec![
        ("café", "cafe"),
        ("naïve", "naive"),
        ("über", "uber"),
        ("São", "Sao"),
        ("ångström", "angstrom"),
        ("fiancé", "fiance"),
        ("東京", "東京"),      // identical
        ("foo_bar", "foobar"), // partial match
        ("hello-world", "hello world"),
        ("hello—world", "hello world"),
        ("Apt #4B", "Apt 4B"),
        ("LLC", "L.L.C."),
        ("co-op", "coop"),
        ("123-456", "123456"),
        ("mid–range", "mid range"),
        ("space   tabs", "space tabs"),
        ("résumé", "resume"),
        ("façade", "facade"),
        ("İstanbul", "istanbul"),
        ("straße", "strasse"),
    ];

    for (left, right) in positive_similarity_cases {
        let score = compute_similarity(left, right);
        assert!(
            score > 0.0,
            "Expected positive similarity for ({}, {}), got {}",
            left,
            right,
            score
        );
    }

    // These pairs have ZERO similarity (different scripts, no shared trigrams)
    let zero_similarity_cases = vec![
        ("привет", "privet"), // Cyrillic vs Latin
        ("東京", "东 京"),    // Traditional vs Simplified Chinese (different chars)
        ("Ελλάδα", "Ellada"), // Greek vs Latin
    ];

    for (left, right) in zero_similarity_cases {
        let score = compute_similarity(left, right);
        // These should NOT crash and should return 0 (different scripts)
        assert!(
            score >= 0.0,
            "Score should be non-negative for ({}, {}), got {}",
            left,
            right,
            score
        );
    }
}

#[test]
fn test_identical_after_normalization() {
    // These pairs should be IDENTICAL after case normalization
    let identical_pairs = vec![
        ("Hello", "hello"),
        ("WORLD", "world"),
        ("İstanbul", "istanbul"), // Turkish İ → i after \u{0307} removal
    ];

    for (left, right) in identical_pairs {
        let score = compute_similarity(left, right);
        assert_eq!(
            score, 1.0,
            "Expected exact match for ({}, {}), got {}",
            left, right, score
        );
    }
}

#[test]
fn test_trigram_set_identity() {
    // Verify that trigram sets are identical for case-normalized equivalents
    let set1 = trigrams("İstanbul");
    let set2 = trigrams("istanbul");
    assert_eq!(set1.len(), set2.len(), "Trigram set sizes differ");

    // Check that all trigrams in set1 are in set2
    for &t in set1.items() {
        assert!(set2.contains(t), "Trigram {:?} not found in set2", t);
    }
}

#[test]
fn test_similarity_batch_consistency() {
    // Test that batch processing gives same results as individual
    let pairs = vec![
        ("hello".to_string(), "world".to_string()),
        ("foo".to_string(), "bar".to_string()),
        ("test".to_string(), "testing".to_string()),
    ];

    let expected: Vec<f32> = pairs
        .iter()
        .map(|(a, b)| compute_similarity(a, b))
        .collect();

    // Compare element by element
    for (i, (a, b)) in pairs.iter().enumerate() {
        let score = compute_similarity(a, b);
        assert_eq!(score, expected[i], "Mismatch at index {}", i);
    }
}

#[test]
fn test_similarity_partial_exact_counts() {
    // "hello" and "hallo" share "  h", "llo", "lo " out of 9 distinct trigrams.
    let a = trigrams("hello");
    let b = trigrams("hallo");
    let s = similarity_from_sets(&a, &b);
    assert_eq!(s.shared, 3);
    assert_eq!(s.total, 9);
    assert_eq!(score_f32(s), (3.0f64 / 9.0f64) as f32);
}

#[test]
fn test_similarity_symmetry() {
    let cases = vec![("hello", "hallo"), ("", "word"), ("café", "cafe"), ("a", "b")];
    for (l, r) in cases {
        assert_eq!(similarity(l, r), similarity(r, l), "asymmetric for ({}, {})", l, r);
    }
}

#[test]
fn test_empty_vs_word() {
    let s = similarity("", "hello");
    assert_eq!(s.shared, 0);
    assert_eq!(score_f32(s), 0.0);
}

#[test]
fn test_single_char_word() {
    // One word character still yields trigrams thanks to the padding.
    assert_eq!(trigrams("a").len(), 2);
}

#[test]
fn test_crc32_reference_value() {
    // Exact register value of the legacy table-driven checksum for "abc".
    assert_eq!(legacy_crc32(b"abc"), 0x01DB4402);
}

#[test]
fn test_compact_trigram_crc_bytes() {
    // The checksum of the 6-byte encoding of "ééé" is 0xB0B0B6AF; the key is
    // its low three bytes in little-endian order.
    assert_eq!(compact_trigram('é', 'é', 'é'), [0xAF, 0xB6, 0xB0]);
}

#[test]
fn test_batch_small_matches_individual() {
    let pairs = vec![
        ("hello".to_string(), "hallo".to_string()),
        ("".to_string(), "".to_string()),
        ("İstanbul".to_string(), "istanbul".to_string()),
    ];
    let batch = similarity_batch(pairs.clone());
    assert_eq!(batch.len(), pairs.len());
    for (i, (a, b)) in pairs.iter().enumerate() {
        assert_eq!(batch[i], similarity(a, b), "mismatch at {}", i);
    }
}

#[test]
fn test_batch_parallel_matches_individual() {
    // 300 pairs crosses the parallel crossover; outputs must be identical to
    // the one-at-a-time results, in order.
    let base = [("hello", "hallo"), ("foo", "bar"), ("test", "testing"), ("", "x")];
    let mut pairs: Vec<(String, String)> = Vec::new();
    for i in 0..300 {
        let (a, b) = base[i % base.len()];
        pairs.push((a.to_string(), b.to_string()));
    }
    let batch = similarity_batch(pairs.clone());
    assert_eq!(batch.len(), 300);
    for (i, (a, b)) in pairs.iter().enumerate() {
        assert_eq!(batch[i], similarity(a, b), "mismatch at {}", i);
    }
}

#[test]
fn test_best_match_empty() {
    let r = best_match("hello", Vec::new());
    assert_eq!(r, Err(SearchError::EmptyCandidates));
}

#[test]
fn test_best_match_picks_best() {
    let hay = vec!["xyzzy".to_string(), "hallo".to_string(), "hello".to_string()];
    let (idx, s) = best_match("hello", hay).unwrap();
    assert_eq!(idx, 2);
    assert_eq!(score_f32(s), 1.0);
}

#[test]
fn test_best_match_tie_lowest_index() {
    let hay = vec![
        "xyzzy".to_string(),
        "hello".to_string(),
        "hello".to_string(),
    ];
    let (idx, _) = best_match("hello", hay).unwrap();
    assert_eq!(idx, 1);

    let hay2 = vec!["hello".to_string(), "world".to_string(), "hello".to_string()];
    let (idx2, _) = best_match("hello", hay2).unwrap();
    assert_eq!(idx2, 0);
}

#[test]
fn test_score_all_ranked() {
    let hay = vec![
        "hello".to_string(),
        "hallo".to_string(),
        "xyzzy".to_string(),
        "hello".to_string(),
    ];
    // Threshold 1/10: keeps both exact matches and the partial one, drops the
    // unrelated candidate (score 0).
    let r = score_all("hello", hay, 1, 10);
    let indices: Vec<usize> = r.iter().map(|&(i, _)| i).collect();
    assert_eq!(indices, vec![0, 3, 1]);
    for w in r.windows(2) {
        let a = score_f32(w[0].1);
        let b = score_f32(w[1].1);
        assert!(a > b || (a == b && w[0].0 < w[1].0));
    }
    for &(_, s) in &r {
        assert!(score_f32(s) >= 0.1);
    }
}

#[test]
fn test_score_all_empty_candidates() {
    let r = score_all("hello", Vec::new(), 0, 1);
    assert!(r.is_empty());
}

#[test]
fn test_best_match_parallel_path() {
    // 260 candidates crosses the parallel crossover; the winner and the
    // tie-break must be the same as a sequential scan would give.
    let mut hay: Vec<String> = Vec::new();
    for i in 0..260 {
        hay.push(if i % 7 == 3 { "hallo".to_string() } else { "xyzzy".to_string() });
    }
    hay[123] = "hello".to_string();
    hay[200] = "hello".to_string();
    let (idx, s) = best_match("hello", hay).unwrap();
    assert_eq!(idx, 123);
    assert_eq!(score_f32(s), 1.0);
}

#[test]
fn test_score_all_parallel_matches_sequential() {
    // The same candidates, above and below the crossover: the ranked prefix
    // over the shared candidates must agree.
    let base = ["hello", "hallo", "xyzzy", "helper"];
    let mut small: Vec<String> = Vec::new();
    for i in 0..8 {
        small.push(base[i % base.len()].to_string());
    }
    let mut large = small.clone();
    for _ in 0..300 {
        large.push("zzz".to_string());
    }
    let r_small = score_all("hello", small, 1, 100);
    let r_large = score_all("hello", large, 1, 100);
    // "zzz" shares nothing with "hello", so both rankings hold the same
    // entries in the same order.
    assert_eq!(r_small, r_large);
}

#[test]
fn test_normalization_strips_combining_dot() {
    // The folded form of İ is i + U+0307; the mark is removed, so the
    // normalized characters match plain "i".
    let n = trigram_sim::pg_downcase("İ");
    assert_eq!(n, vec!['i']);
}
