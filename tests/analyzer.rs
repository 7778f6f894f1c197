use jaccard_sim::analyzer::{compare_row, map_to_vec, run, run_similarities, vec_to_similarities, Aggregator};
use jaccard_sim::similarity::{calculate_combinations, get_similarity, round_div, round_ratio};
use jaccard_sim::tokenizer::get_stripped_string;

fn set_of(words: &[&str]) -> Vec<String> {
    words.iter().map(|w| String::from(*w)).collect()
}

#[test]
fn should_split_string() {
    let res = get_stripped_string("Hello. I\u{2019}m Andrew; and, who're you?you");
    assert_eq!(8, res.len(), "get_stripped_string('Hello. I\u{2019}m Andrew; and, who're you?you')");
}

#[test]
fn should_calculate_similarity() {
    let arr1 = set_of(&["a", "b", "c"]);
    let arr2 = set_of(&["b", "c", "d"]);
    let res = get_similarity(&arr1, &arr2);
    assert_eq!(500, res, "get_similarity([a,b,c], [b,c,d])");
}

#[test]
fn should_calculate_total_combinations() {
    let combinations = calculate_combinations(5);
    assert_eq!(10, combinations, "calculate_combinations(3)");
}

#[test]
fn should_run_similarities() {
    let records = vec![set_of(&["a", "b", "c"]), set_of(&["b", "c", "d"])];
    let batches = run_similarities(&records);
    assert_eq!(1, batches.len());
}

#[test]
fn should_not_run_similarities_if_exactly_one_record() {
    let records = vec![set_of(&["a", "b", "c"])];
    let batches = run_similarities(&records);
    assert_eq!(0, batches.len());
}

#[test]
fn should_not_run_similarities_if_zero_records() {
    let records: Vec<Vec<String>> = vec![];
    let batches = run_similarities(&records);
    assert_eq!(0, batches.len());
}

#[test]
fn tokens_drop_punctuation_and_duplicates() {
    let mut res = get_stripped_string("Hello. I\u{2019}m Andrew; and, who're you?you");
    res.sort();
    assert_eq!(res, set_of(&["Andrew", "Hello", "I", "and", "m", "re", "who", "you"]));
}

#[test]
fn tokens_of_empty_text_are_empty() {
    assert!(get_stripped_string("").is_empty());
    assert!(get_stripped_string(" .,;  ").is_empty());
}

#[test]
fn tokens_split_at_punctuation_between_words() {
    let mut res = get_stripped_string("a.b|c\td");
    res.sort();
    assert_eq!(res, set_of(&["a", "b|c", "d"]));
}

#[test]
fn tokens_keep_case() {
    let mut res = get_stripped_string("Word word WORD");
    res.sort();
    assert_eq!(res, set_of(&["WORD", "Word", "word"]));
}

#[test]
fn similarity_is_symmetric() {
    let a = set_of(&["x", "y", "z", "w"]);
    let b = set_of(&["y", "q"]);
    assert_eq!(get_similarity(&a, &b), get_similarity(&b, &a));
    assert_eq!(get_similarity(&a, &b), 200);
}

#[test]
fn similarity_with_itself_is_one() {
    let a = set_of(&["x", "y", "z"]);
    assert_eq!(get_similarity(&a, &a), 1000);
}

#[test]
fn similarity_of_two_empty_sets_is_zero() {
    let a: Vec<String> = vec![];
    assert_eq!(get_similarity(&a, &a), 0);
}

#[test]
fn similarity_with_empty_set_is_zero() {
    let a: Vec<String> = vec![];
    let b = set_of(&["x"]);
    assert_eq!(get_similarity(&a, &b), 0);
}

#[test]
fn similarity_is_rounded_half_away_from_zero() {
    // 1 / 3 -> 0.333; 2 / 3 -> 0.667
    let a = set_of(&["x", "y"]);
    let b = set_of(&["y", "z"]);
    assert_eq!(get_similarity(&a, &b), 333);
    let c = set_of(&["x", "y", "z"]);
    let d = set_of(&["x", "y"]);
    assert_eq!(get_similarity(&c, &d), 667);
}

#[test]
fn combinations_of_zero_and_one_are_zero() {
    assert_eq!(calculate_combinations(0), 0);
    assert_eq!(calculate_combinations(1), 0);
    assert_eq!(calculate_combinations(2), 1);
    assert_eq!(calculate_combinations(100), 4950);
}

#[test]
fn rounding_at_three_decimals() {
    assert_eq!(round_ratio(2195, 10000), 220);
    assert_eq!(round_ratio(2194, 10000), 219);
    assert_eq!(round_ratio(1, 8), 125);
    assert_eq!(round_ratio(1, 16), 63);
    assert_eq!(round_div(5, 2), 3);
    assert_eq!(round_div(4, 3), 1);
}

#[test]
fn compare_row_scores_later_records() {
    let records = vec![set_of(&["a"]), set_of(&["a", "b"]), set_of(&["c"])];
    assert_eq!(compare_row(&records, 0), vec![500, 0]);
    assert_eq!(compare_row(&records, 1), vec![0]);
    assert_eq!(compare_row(&records, 2), Vec::<u64>::new());
}

#[test]
fn zero_or_one_record_gives_no_scores() {
    let none: Vec<Vec<String>> = vec![];
    assert_eq!(vec_to_similarities(&none).results.len(), 0);
    let one = vec![set_of(&["a"])];
    assert_eq!(vec_to_similarities(&one).results.len(), 0);
}

#[test]
fn two_records_give_one_score() {
    let two = vec![set_of(&["a", "b", "c"]), set_of(&["b", "c", "d"])];
    let sims = vec_to_similarities(&two);
    assert_eq!(sims.results, vec![500]);
    assert_eq!(sims.avg, 500);
    assert_eq!(sims.min, 0);
    assert_eq!(sims.max, 500);
}

#[test]
fn disjoint_records_give_zero_scores_and_bounds() {
    let three = vec![set_of(&["a"]), set_of(&["b"]), set_of(&["c"])];
    let sims = vec_to_similarities(&three);
    assert_eq!(sims.results, vec![0, 0, 0]);
    assert_eq!(sims.avg, 0);
    assert_eq!(sims.min, 0);
    assert_eq!(sims.max, 0);
    assert_eq!(sims.precision, 3);
}

#[test]
fn mean_of_identical_scores_is_that_score() {
    let mut agg = Aggregator::new();
    agg.add_batch(&vec![250, 250]);
    agg.add_batch(&vec![250]);
    let sims = agg.finish();
    assert_eq!(sims.avg, 250);
    assert_eq!(sims.results.len(), 3);
}

#[test]
fn bounds_follow_the_seeded_update_rule() {
    let mut agg = Aggregator::new();
    agg.add_batch(&vec![300, 100, 700]);
    agg.add_batch(&vec![500]);
    let sims = agg.finish();
    assert_eq!(sims.min, 0);
    assert_eq!(sims.max, 700);
    assert_eq!(sims.avg, 400);
}

#[test]
fn mean_is_rounded() {
    let mut agg = Aggregator::new();
    agg.add_batch(&vec![1, 2]);
    let sims = agg.finish();
    assert_eq!(sims.avg, 2);
}

#[test]
fn run_tokenizes_and_scores_records() {
    let records = vec![
        (String::from("1"), String::from("a b c")),
        (String::from("2"), String::from("b, c. d")),
        (String::from("3"), String::from("x")),
    ];
    let sets = map_to_vec(&records);
    assert_eq!(sets.len(), 3);
    let sims = run(&records);
    assert_eq!(sims.results, vec![500, 0, 0]);
    assert_eq!(sims.avg, 167);
    assert_eq!(sims.max, 500);
}

#[test]
fn run_on_disjoint_texts_gives_zero_scores() {
    let records = vec![
        (String::from("1"), String::from("a b c")),
        (String::from("2"), String::from("d e f")),
        (String::from("3"), String::from("g h i")),
    ];
    let sims = run(&records);
    assert_eq!(sims.results, vec![0, 0, 0]);
    assert_eq!(sims.avg, 0);
    assert_eq!(sims.min, 0);
    assert_eq!(sims.max, 0);
}

#[test]
fn pipe_is_kept_inside_words() {
    let res = get_stripped_string("a|b");
    assert_eq!(res, set_of(&["a|b"]));
}
