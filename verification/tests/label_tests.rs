use image_tagger::config::SCORE_ONE;
use image_tagger::labels::{
    filter_tags, tag_scores, Label, LabelAnalyzer, TagEntry, CHARACTER, GENERAL, RATING,
};
use image_tagger::ranking::rank;
use image_tagger::tag_names::{kaomojis, listed, normalize_tag, normalize_with};
use image_tagger::threshold::mcut_threshold;

fn score(x: f32) -> u64 {
    (x as f64 * SCORE_ONE as f64).round() as u64
}

fn label(name: &str, category: u32) -> Label {
    Label { name: name.to_string(), category }
}

fn entries(scores: &[u64]) -> Vec<TagEntry> {
    scores.iter().enumerate().map(|(index, &score)| TagEntry { index, score }).collect()
}

fn pairs(list: &[TagEntry]) -> Vec<(usize, u64)> {
    list.iter().map(|e| (e.index, e.score)).collect()
}

fn vocabulary() -> Vec<Label> {
    vec![
        label("general", RATING),
        label("sensitive", RATING),
        label("questionable", RATING),
        label("explicit", RATING),
        label("1girl", GENERAL),
        label("blue_hair", GENERAL),
        label("o_o", GENERAL),
        label("long_hair", GENERAL),
        label("hatsune_miku", CHARACTER),
        label("kagamine_rin", CHARACTER),
        label("artist_name", 1),
    ]
}

#[test]
fn mcut_of_the_worked_example() {
    assert_eq!(mcut_threshold(&vec![900, 600, 550, 100]), 325);
}

#[test]
fn mcut_of_the_worked_example_in_floats() {
    let scores: Vec<u64> = [0.9f32, 0.6, 0.55, 0.1].iter().map(|&x| score(x)).collect();
    let threshold = mcut_threshold(&scores) as f64 / SCORE_ONE as f64;
    assert!((threshold - 0.325).abs() < 1e-6);
}

#[test]
fn mcut_does_not_depend_on_the_order() {
    let orders: [[u64; 4]; 6] = [
        [900, 600, 550, 100],
        [100, 550, 600, 900],
        [600, 100, 900, 550],
        [550, 900, 100, 600],
        [100, 900, 550, 600],
        [900, 100, 600, 550],
    ];
    for order in orders {
        assert_eq!(mcut_threshold(&order.to_vec()), 325);
    }
}

#[test]
fn mcut_takes_the_first_of_equal_gaps() {
    assert_eq!(mcut_threshold(&vec![4, 10, 7]), 8);
    assert_eq!(mcut_threshold(&vec![30, 20, 10, 0]), 25);
}

#[test]
fn mcut_rounds_the_midpoint_down() {
    assert_eq!(mcut_threshold(&vec![3, 0]), 1);
    assert_eq!(mcut_threshold(&vec![6, 5]), 5);
}

#[test]
fn mcut_of_fewer_than_two_scores_is_zero() {
    assert_eq!(mcut_threshold(&vec![]), 0);
    assert_eq!(mcut_threshold(&vec![123]), 0);
}

#[test]
fn mcut_of_equal_scores_is_that_score() {
    assert_eq!(mcut_threshold(&vec![5, 5, 5]), 5);
}

#[test]
fn mcut_of_the_largest_scores_does_not_overflow() {
    assert_eq!(mcut_threshold(&vec![u64::MAX, u64::MAX - 1]), u64::MAX - 1);
    assert_eq!(mcut_threshold(&vec![u64::MAX, 0]), u64::MAX / 2);
}

#[test]
fn rank_sorts_scores_from_high_to_low() {
    assert_eq!(rank(&vec![3u64, 9, 1, 9, 0]), vec![9, 9, 3, 1, 0]);
    assert_eq!(rank(&Vec::<u64>::new()), Vec::<u64>::new());
}

#[test]
fn rank_breaks_ties_by_vocabulary_position() {
    let list = vec![
        TagEntry { index: 7, score: 5 },
        TagEntry { index: 2, score: 9 },
        TagEntry { index: 3, score: 5 },
        TagEntry { index: 1, score: 5 },
    ];
    assert_eq!(pairs(&rank(&list)), vec![(2, 9), (1, 5), (3, 5), (7, 5)]);
}

#[test]
fn fixed_threshold_keeps_a_score_equal_to_it() {
    let kept = filter_tags(entries(&[349, 350, 351, 0]), 350, false);
    assert_eq!(pairs(&kept), vec![(1, 350), (2, 351)]);
}

#[test]
fn fixed_threshold_of_zero_keeps_everything() {
    let kept = filter_tags(entries(&[0, 5, 0]), 0, false);
    assert_eq!(pairs(&kept), vec![(0, 0), (1, 5), (2, 0)]);
}

#[test]
fn adaptive_threshold_cuts_at_the_widest_gap() {
    let kept = filter_tags(entries(&[100, 900, 550, 600]), 999, true);
    assert_eq!(pairs(&kept), vec![(1, 900), (2, 550), (3, 600)]);
}

#[test]
fn adaptive_threshold_keeps_a_score_equal_to_it() {
    // Ranked 6, 5: the cut is at 5, and the entry that scores 5 stays.
    let kept = filter_tags(entries(&[5, 6]), 0, true);
    assert_eq!(pairs(&kept), vec![(0, 5), (1, 6)]);
}

#[test]
fn adaptive_threshold_of_a_single_entry_keeps_it() {
    let kept = filter_tags(entries(&[0]), 999, true);
    assert_eq!(pairs(&kept), vec![(0, 0)]);
    assert!(filter_tags(Vec::new(), 999, true).is_empty());
}

#[test]
fn tag_scores_follow_the_indices() {
    let got = tag_scores(&[10, 20, 30, 40], &vec![3, 1]);
    assert_eq!(pairs(&got), vec![(3, 40), (1, 20)]);
}

#[test]
fn underscores_are_stripped() {
    assert_eq!(normalize_tag("blue_hair"), "bluehair");
    assert_eq!(normalize_tag("a__b_"), "ab");
    assert_eq!(normalize_tag("plain"), "plain");
    assert_eq!(normalize_tag(""), "");
    assert_eq!(normalize_tag("_"), "");
}

#[test]
fn kaomoji_keep_their_underscores() {
    assert_eq!(normalize_tag("o_o"), "o_o");
    let table = kaomojis();
    assert_eq!(table.len(), 19);
    for face in &table {
        assert!(face.contains('_'));
        assert_eq!(normalize_tag(face), *face);
        assert_eq!(normalize_with(&table, face.clone()), *face);
    }
    assert!(listed(&table, &"||_||".to_string()));
    assert!(!listed(&table, &"o_O".to_string()));
}

#[test]
fn normalizing_twice_is_normalizing_once() {
    for name in ["blue_hair", "o_o", "^_^", "a_b_c", "0_0_", "_o_o", "x", ""] {
        let once = normalize_tag(name);
        assert_eq!(normalize_tag(&once), once);
    }
}

#[test]
fn analyzer_normalizes_names_and_counts_tags() {
    let analyzer = LabelAnalyzer::new(vocabulary(), 350, false, 850, false);
    assert_eq!(analyzer.tag_count(), 11);
    let preds: Vec<u64> = vec![10, 40, 30, 20, 900, 350, 349, 351, 850, 849, 999];
    let (ratings, general, character) = analyzer.analyze(&preds);
    assert_eq!(
        ratings,
        vec![("sensitive", 40), ("questionable", 30), ("explicit", 20), ("general", 10)]
    );
    assert_eq!(general, vec![("1girl", 900), ("longhair", 351), ("bluehair", 350)]);
    assert_eq!(character, vec![("hatsunemiku", 850)]);
}

#[test]
fn analyzer_leaves_out_other_categories() {
    let analyzer = LabelAnalyzer::new(vocabulary(), 0, false, 0, false);
    let preds: Vec<u64> = vec![1, 1, 1, 1, 1, 1, 1, 1, 1, 1, 999];
    let (ratings, general, character) = analyzer.analyze(&preds);
    assert_eq!(ratings.len() + general.len() + character.len(), 10);
    for list in [&ratings, &general, &character] {
        assert!(list.iter().all(|(name, _)| *name != "artistname" && *name != "artist_name"));
    }
}

#[test]
fn analyzer_ranks_equal_scores_in_vocabulary_order() {
    let analyzer = LabelAnalyzer::new(vocabulary(), 0, false, 0, false);
    let preds: Vec<u64> = vec![5, 5, 5, 5, 7, 7, 8, 7, 3, 3, 0];
    let (ratings, general, character) = analyzer.analyze(&preds);
    assert_eq!(
        ratings,
        vec![("general", 5), ("sensitive", 5), ("questionable", 5), ("explicit", 5)]
    );
    assert_eq!(general, vec![("o_o", 8), ("1girl", 7), ("bluehair", 7), ("longhair", 7)]);
    assert_eq!(character, vec![("hatsunemiku", 3), ("kagaminerin", 3)]);
}

#[test]
fn analyzer_with_adaptive_thresholds() {
    let analyzer = LabelAnalyzer::new(vocabulary(), 999, true, 999, true);
    let preds: Vec<u64> = vec![0, 0, 0, 0, 900, 600, 550, 100, 10, 700, 0];
    let (ratings, general, character) = analyzer.analyze(&preds);
    assert_eq!(ratings.len(), 4);
    assert_eq!(general, vec![("1girl", 900), ("bluehair", 600), ("o_o", 550)]);
    assert_eq!(character, vec![("kagaminerin", 700)]);
}

#[test]
fn analyzer_of_float_scores() {
    let analyzer = LabelAnalyzer::new(vocabulary(), score(0.35), false, score(0.85), false);
    let floats: [f32; 11] = [0.9, 0.05, 0.03, 0.02, 0.99, 0.35, 0.34999, 0.2, 0.85, 0.1, 0.5];
    let preds: Vec<u64> = floats.iter().map(|&x| score(x)).collect();
    let (ratings, general, character) = analyzer.analyze(&preds);
    assert_eq!(ratings[0].0, "general");
    let names: Vec<&str> = general.iter().map(|(name, _)| *name).collect();
    assert_eq!(names, vec!["1girl", "bluehair"]);
    assert_eq!(character, vec![("hatsunemiku", score(0.85))]);
}

#[test]
fn analyzer_of_an_empty_vocabulary() {
    let analyzer = LabelAnalyzer::new(Vec::new(), 1, true, 1, false);
    assert_eq!(analyzer.tag_count(), 0);
    let (ratings, general, character) = analyzer.analyze(&[]);
    assert!(ratings.is_empty() && general.is_empty() && character.is_empty());
}

#[test]
fn batch_analysis_goes_row_by_row() {
    let analyzer = LabelAnalyzer::new(vocabulary(), 350, false, 850, false);
    let rows: Vec<Vec<u64>> = vec![
        vec![10, 40, 30, 20, 900, 350, 349, 351, 850, 849, 999],
        vec![1, 2, 3, 4, 0, 0, 0, 0, 0, 0, 0],
        vec![0, 0, 0, 9, 400, 0, 500, 0, 0, 900, 0],
    ];
    let all = analyzer.analyze_batch(&rows);
    assert_eq!(all.len(), 3);
    for (i, row) in rows.iter().enumerate() {
        assert_eq!(all[i], analyzer.analyze(row));
    }
    assert_eq!(all[1].0[0], ("explicit", 4));
    assert!(all[1].1.is_empty());
    assert_eq!(all[2].1, vec![("o_o", 500), ("1girl", 400)]);
    assert_eq!(all[2].2, vec![("kagaminerin", 900)]);
}
