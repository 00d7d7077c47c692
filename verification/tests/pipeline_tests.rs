use image_tagger::batches::chunk;
use image_tagger::config::{Config, SCORE_ONE};
use image_tagger::image_processor::{ImageProcessor, OutputError};
use image_tagger::labels::{Label, TagScores, CHARACTER, GENERAL, RATING};
use image_tagger::ordering::restore_order;
use image_tagger::paths::{file_stem, ImagePath};
use image_tagger::progress_tracker::{keep_images, names_image, ProgressTracker};

fn path(text: &str) -> ImagePath {
    ImagePath::new(text.split('/').filter(|part| !part.is_empty()).map(String::from).collect())
}

fn text(path: &ImagePath) -> String {
    path.components.join("/")
}

fn config(batch_size: usize) -> Config {
    Config {
        input_dir: path("data/in"),
        output_dir: path("out"),
        device_id: 0,
        batch_size,
        general_threshold: 350,
        general_mcut_enabled: false,
        character_threshold: 850,
        character_mcut_enabled: false,
    }
}

#[test]
fn chunks_of_two_from_three() {
    let batches = chunk(vec!['a', 'b', 'c'], 2);
    assert_eq!(batches, vec![vec!['a', 'b'], vec!['c']]);
}

#[test]
fn chunks_that_divide_evenly() {
    assert_eq!(chunk(vec![1, 2, 3, 4], 2), vec![vec![1, 2], vec![3, 4]]);
    assert_eq!(chunk(vec![1, 2, 3], 1), vec![vec![1], vec![2], vec![3]]);
}

#[test]
fn chunks_of_nothing_and_of_less_than_one_batch() {
    assert!(chunk(Vec::<u8>::new(), 3).is_empty());
    assert_eq!(chunk(vec![1, 2], 5), vec![vec![1, 2]]);
    assert_eq!(chunk(vec![1, 2], usize::MAX), vec![vec![1, 2]]);
}

#[test]
fn chunking_keeps_every_item_in_order() {
    let items: Vec<u32> = (0..103).collect();
    let batches = chunk(items.clone(), 10);
    assert_eq!(batches.len(), 11);
    assert!(batches[..10].iter().all(|batch| batch.len() == 10));
    assert_eq!(batches[10].len(), 3);
    assert_eq!(batches.concat(), items);
}

#[test]
fn results_go_back_to_their_positions() {
    let arrived = vec![(2, "c"), (0, "a"), (3, "d"), (1, "b")];
    assert_eq!(restore_order(arrived), vec!["a", "b", "c", "d"]);
}

#[test]
fn results_in_every_arrival_order() {
    let orders: [[usize; 3]; 6] =
        [[0, 1, 2], [0, 2, 1], [1, 0, 2], [1, 2, 0], [2, 0, 1], [2, 1, 0]];
    for order in orders {
        let arrived: Vec<(usize, String)> =
            order.iter().map(|&i| (i, format!("image {i}"))).collect();
        assert_eq!(restore_order(arrived), vec!["image 0", "image 1", "image 2"]);
    }
}

#[test]
fn results_with_one_tag_stay_as_they_came() {
    let arrived = vec![(1, "x"), (0, "first"), (1, "y"), (0, "second"), (1, "z")];
    assert_eq!(restore_order(arrived), vec!["first", "second", "x", "y", "z"]);
    assert!(restore_order(Vec::<(usize, u8)>::new()).is_empty());
}

#[test]
fn results_need_not_be_copyable() {
    let arrived = vec![(1, vec![1.5f32, 2.5]), (0, vec![0.5f32])];
    assert_eq!(restore_order(arrived), vec![vec![0.5f32], vec![1.5, 2.5]]);
}

#[test]
fn stem_of_a_file_name() {
    assert_eq!(file_stem("a.png"), Some("a".to_string()));
    assert_eq!(file_stem("archive.tar.gz"), Some("archive.tar".to_string()));
    assert_eq!(file_stem("noext"), Some("noext".to_string()));
    assert_eq!(file_stem(".hidden"), Some(".hidden".to_string()));
    assert_eq!(file_stem(".hidden.png"), Some(".hidden".to_string()));
    assert_eq!(file_stem("a."), Some("a".to_string()));
    assert_eq!(file_stem("..."), Some("..".to_string()));
    assert_eq!(file_stem("日本語.jpg"), Some("日本語".to_string()));
}

#[test]
fn stem_of_what_is_no_file_name() {
    assert_eq!(file_stem(""), None);
    assert_eq!(file_stem("."), None);
    assert_eq!(file_stem(".."), None);
    assert_eq!(file_stem("/"), None);
    assert_eq!(file_stem("a/b.png"), None);
}

#[test]
fn stem_agrees_with_the_standard_library() {
    for name in ["a.png", "archive.tar.gz", "noext", ".hidden", ".hidden.png", "a.", "...", "x.y.z"] {
        let expected = std::path::Path::new(name).file_stem().map(|s| s.to_str().unwrap().to_string());
        assert_eq!(file_stem(name), expected);
    }
}

#[test]
fn path_prefix_parent_and_join() {
    let image = path("data/in/sub/deep/a.png");
    let relative = image.strip_prefix(&path("data/in")).unwrap();
    assert_eq!(text(&relative), "sub/deep/a.png");
    assert_eq!(text(&relative.parent_or_empty()), "sub/deep");
    assert_eq!(text(&path("out").join(&relative.parent_or_empty())), "out/sub/deep");
    assert!(image.strip_prefix(&path("data/other")).is_none());
    assert!(path("data").strip_prefix(&path("data/in")).is_none());
    assert_eq!(text(&image.strip_prefix(&image).unwrap()), "");
    assert_eq!(text(&path("").parent_or_empty()), "");
    assert_eq!(text(&path("a").child("b.txt".to_string())), "a/b.txt");
    assert_eq!(text(&image.duplicate()), "data/in/sub/deep/a.png");
}

#[test]
fn image_files_are_told_by_their_extension() {
    assert!(names_image(&path("in/a.png")));
    assert!(names_image(&path("in/b.JPG")));
    assert!(names_image(&path("c.webp")));
    assert!(!names_image(&path("in/notes.txt")));
    assert!(!names_image(&path("in/png")));
    assert!(!names_image(&path("")));
    let kept = keep_images(vec![path("a.png"), path("b.txt"), path("c/d.jpeg"), path("e")]);
    let names: Vec<String> = kept.iter().map(text).collect();
    assert_eq!(names, vec!["a.png", "c/d.jpeg"]);
}

#[test]
fn tracker_batches_the_images_only() {
    let candidates = vec![
        path("data/in/a.png"),
        path("data/in/readme.md"),
        path("data/in/sub/b.jpg"),
        path("data/in/sub/c.gif"),
    ];
    let tracker = ProgressTracker::new(candidates, 2);
    assert_eq!(tracker.batch_count(), 2);
    let first: Vec<String> = tracker.batch(0).iter().map(text).collect();
    let second: Vec<String> = tracker.batch(1).iter().map(text).collect();
    assert_eq!(first, vec!["data/in/a.png", "data/in/sub/b.jpg"]);
    assert_eq!(second, vec!["data/in/sub/c.gif"]);
    let sizes: Vec<usize> = tracker.into_batches().iter().map(Vec::len).collect();
    assert_eq!(sizes, vec![2, 1]);
}

#[test]
fn tag_line_joins_general_then_character() {
    let general: TagScores = vec![("1girl", 9), ("solo", 8)];
    let character: TagScores = vec![("hatsunemiku", 7)];
    assert_eq!(ImageProcessor::tag_line(&general, &character), "1girl, solo, hatsunemiku");
    assert_eq!(ImageProcessor::tag_line(&general, &Vec::new()), "1girl, solo");
    assert_eq!(ImageProcessor::tag_line(&Vec::new(), &character), "hatsunemiku");
    assert_eq!(ImageProcessor::tag_line(&Vec::new(), &Vec::new()), "");
}

#[test]
fn output_directory_mirrors_the_input() {
    let processor = ImageProcessor::new(&config(2));
    let dir = processor.output_subdir(&path("data/in/sub/deep/a.png")).unwrap();
    assert_eq!(text(&dir), "out/sub/deep");
    let top = processor.output_subdir(&path("data/in/a.png")).unwrap();
    assert_eq!(text(&top), "out");
    assert!(processor.output_subdir(&path("elsewhere/a.png")).is_none());
}

#[test]
fn three_images_in_batches_of_two() {
    let settings = config(2);
    assert!(settings.is_valid());
    let processor = ImageProcessor::new(&settings);
    let analyzer = processor.analyzer(vec![
        Label { name: "general".to_string(), category: RATING },
        Label { name: "long_hair".to_string(), category: GENERAL },
        Label { name: "^_^".to_string(), category: GENERAL },
        Label { name: "hatsune_miku".to_string(), category: CHARACTER },
    ]);
    let tracker = ProgressTracker::new(
        vec![path("data/in/a.png"), path("data/in/x/b.jpg"), path("data/in/x/y/c.webp")],
        settings.batch_size,
    );
    assert_eq!(tracker.batch_count(), 2);
    let scores: Vec<Vec<Vec<u64>>> = vec![
        vec![vec![1, 400, 300, 900], vec![1, 350, 999, 0]],
        vec![vec![1, 900, 0, 850]],
    ];
    let mut written: Vec<(String, String, String)> = Vec::new();
    for b in 0..tracker.batch_count() {
        let paths = tracker.batch(b);
        let labels = analyzer.analyze_batch(&scores[b]);
        assert!(labels.iter().all(|(ratings, _, _)| !ratings.is_empty()));
        let files = processor.process(paths, &labels).unwrap();
        assert_eq!(files.len(), paths.len());
        for file in &files {
            written.push((text(&file.dir), text(&file.path), file.content.clone()));
        }
    }
    assert_eq!(
        written,
        vec![
            ("out".to_string(), "out/a.txt".to_string(), "longhair, hatsunemiku".to_string()),
            ("out/x".to_string(), "out/x/b.txt".to_string(), "^_^, longhair".to_string()),
            ("out/x/y".to_string(), "out/x/y/c.txt".to_string(), "longhair, hatsunemiku".to_string()),
        ]
    );
    assert!(written.iter().all(|(_, _, content)| !content.is_empty()));
}

#[test]
fn a_bad_path_leaves_its_batch_without_output() {
    let processor = ImageProcessor::new(&config(5));
    let images: Vec<ImagePath> = (0..10).map(|i| path(&format!("data/in/{i}.png"))).collect();
    let mut batches = chunk(images, 5);
    batches[1][2] = path("broken/7.png");
    let labels: Vec<(TagScores, TagScores, TagScores)> =
        (0..5).map(|_| (vec![("general", 1)], vec![("solo", 1)], Vec::new())).collect();
    let first = processor.process(&batches[0], &labels).unwrap();
    assert_eq!(first.len(), 5);
    assert_eq!(processor.process(&batches[1], &labels).unwrap_err(), OutputError::OutsideInput(2));
}

#[test]
fn process_reports_the_first_path_it_cannot_place() {
    let processor = ImageProcessor::new(&config(2));
    let labels: Vec<(TagScores, TagScores, TagScores)> =
        (0..3).map(|_| (Vec::new(), vec![("solo", 1)], Vec::new())).collect();
    let no_name = vec![path("data/in/a.png"), path("data/in/.."), path("other/b.png")];
    assert_eq!(processor.process(&no_name, &labels).unwrap_err(), OutputError::NoFileName(1));
    let outside = vec![path("data/in/a.png"), path("other/b.png"), path("data/in/..")];
    assert_eq!(processor.process(&outside, &labels).unwrap_err(), OutputError::OutsideInput(1));
    let empty = vec![path("data/in/a.png"), path("data/in/b.png"), ImagePath::new(Vec::new())];
    assert_eq!(processor.process(&empty, &labels).unwrap_err(), OutputError::OutsideInput(2));
    let short = vec![path("data/in/a.png")];
    assert_eq!(processor.process(&short, &labels).unwrap_err(), OutputError::CountMismatch);
}

#[test]
fn process_keeps_files_and_tags_together() {
    let processor = ImageProcessor::new(&config(3));
    let paths = vec![path("data/in/b.png"), path("data/in/a.png"), path("data/in/c.png")];
    let labels: Vec<(TagScores, TagScores, TagScores)> = vec![
        (Vec::new(), vec![("for_b", 1)], Vec::new()),
        (Vec::new(), vec![("for_a", 1)], Vec::new()),
        (Vec::new(), Vec::new(), vec![("for_c", 1)]),
    ];
    let files = processor.process(&paths, &labels).unwrap();
    let got: Vec<(String, &str)> = files.iter().map(|f| (text(&f.path), f.content.as_str())).collect();
    assert_eq!(
        got,
        vec![
            ("out/b.txt".to_string(), "for_b"),
            ("out/a.txt".to_string(), "for_a"),
            ("out/c.txt".to_string(), "for_c"),
        ]
    );
}

#[test]
fn settings_need_a_batch_and_thresholds_up_to_one() {
    assert!(config(1).is_valid());
    assert!(!config(0).is_valid());
    let mut high = config(1);
    high.general_threshold = SCORE_ONE;
    assert!(high.is_valid());
    high.character_threshold = SCORE_ONE + 1;
    assert!(!high.is_valid());
}
