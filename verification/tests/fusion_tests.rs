use vox::fusion::rrf_ranks;

fn ids(values: &[&str]) -> Vec<String> {
    values.iter().map(|v| (*v).to_owned()).collect()
}

#[test]
fn ranks_should_follow_first_appearance_and_list_order() {
    let lists = vec![ids(&["a", "b", "c"]), ids(&["c", "d", "e"])];
    let ranked = rrf_ranks(&lists);
    let order: Vec<&str> = ranked.iter().map(|e| e.id.as_str()).collect();
    assert_eq!(order, vec!["a", "b", "c", "d", "e"]);
    let c = ranked.iter().find(|e| e.id == "c").expect("c is ranked");
    assert_eq!(c.ranks, vec![3, 1]);
    let d = ranked.iter().find(|e| e.id == "d").expect("d is ranked");
    assert_eq!(d.ranks, vec![2]);
}

#[test]
fn repeated_ids_should_contribute_once_per_list() {
    let ranked = rrf_ranks(&[ids(&["x", "y", "x"]), ids(&["x"])]);
    assert_eq!(ranked.len(), 2);
    assert_eq!(ranked[0].id, "x");
    assert_eq!(ranked[0].ranks, vec![1, 1]);
    assert_eq!(ranked[1].ranks, vec![2]);
}

#[test]
fn empty_input_should_produce_empty_output() {
    assert!(rrf_ranks(&[]).is_empty());
    assert!(rrf_ranks(&[Vec::new()]).is_empty());
}

#[test]
fn duplicates_within_one_list_should_not_double_count() {
    // Same chunk id, same accumulator entry.
    let fused = rrf_ranks(&[ids(&["dup", "dup"])]);
    assert_eq!(fused.len(), 1);
    assert_eq!(fused[0].ranks, vec![1]);
}

#[test]
fn ordering_should_be_deterministic_across_runs() {
    let build = || vec![ids(&["a", "b", "z"]), ids(&["z", "m", "a"])];
    let first = rrf_ranks(&build());
    let second = rrf_ranks(&build());
    let view = |r: &Vec<vox::fusion::RankedId>| -> Vec<(String, Vec<usize>)> {
        r.iter().map(|e| (e.id.clone(), e.ranks.clone())).collect()
    };
    assert_eq!(view(&first), view(&second));
    assert_eq!(
        view(&first),
        vec![
            ("a".to_owned(), vec![1, 3]),
            ("b".to_owned(), vec![2]),
            ("z".to_owned(), vec![3, 1]),
            ("m".to_owned(), vec![2]),
        ]
    );
}

#[test]
fn documents_in_both_lists_should_hold_more_ranks_than_single_list_documents() {
    // The fused score sums 1 / (k + rank) over the ranks each document
    // holds; with k = 60, c (ranks 3 and 1) outscores a (rank 1 alone),
    // which outscores b and d (rank 2 each).
    let dense = ids(&["a", "b", "c"]);
    let sparse = ids(&["c", "d", "e"]);
    let ranked = rrf_ranks(&[dense, sparse]);
    let score = |id: &str| -> f64 {
        let entry = ranked.iter().find(|e| e.id == id).expect("ranked");
        entry.ranks.iter().map(|&r| 1.0 / (60.0 + r as f64)).sum()
    };
    assert!(score("c") > score("a"));
    assert!(score("a") > score("b"));
    assert_eq!(score("b"), score("d"));
}
