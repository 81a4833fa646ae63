use hash_search::reducer::{index_of_max, reduce, BestResult};

#[test]
fn reducer_selects_the_larger_score() {
    assert_eq!(index_of_max(&[10, 250]), 1);
}

#[test]
fn reducer_resolves_a_tie_to_the_first_index() {
    assert_eq!(index_of_max(&[250, 250]), 0);
    assert_eq!(index_of_max(&[1, 9, 3, 9, 9]), 1);
}

#[test]
fn index_of_max_of_one_score() {
    assert_eq!(index_of_max(&[0]), 0);
    assert_eq!(index_of_max(&[255]), 0);
}

#[test]
fn index_of_max_at_the_end() {
    assert_eq!(index_of_max(&[0, 0, 0, 1]), 3);
    assert_eq!(index_of_max(&[5, 4, 3, 2, 1]), 0);
}

#[test]
fn reduce_records_the_first_improvement() {
    let best = reduce(BestResult::Nothing, 3, &[10, 250]);
    assert_eq!(best, BestResult::Found { round: 3, nonce: 1, score: 250 });
    assert_eq!(best.score(), 250);
}

#[test]
fn reduce_keeps_the_record_on_an_equal_score() {
    let best = BestResult::Found { round: 3, nonce: 1, score: 250 };
    assert_eq!(reduce(best, 4, &[250, 250]), best);
    assert_eq!(reduce(best, 4, &[249, 7]), best);
}

#[test]
fn reduce_replaces_the_record_on_a_larger_score() {
    let best = BestResult::Found { round: 3, nonce: 1, score: 250 };
    assert_eq!(
        reduce(best, 4, &[0, 251, 251]),
        BestResult::Found { round: 4, nonce: 1, score: 251 }
    );
}

#[test]
fn reduce_of_zero_scores_records_nothing() {
    assert_eq!(reduce(BestResult::Nothing, 0, &[0, 0, 0]), BestResult::Nothing);
    assert_eq!(BestResult::Nothing.score(), 0);
}

#[test]
fn recorded_score_never_decreases() {
    let rounds: [[u8; 4]; 5] =
        [[3, 9, 2, 9], [1, 1, 1, 1], [9, 9, 9, 10], [200, 0, 0, 0], [199, 200, 200, 7]];
    let mut best = BestResult::Nothing;
    let mut scores: Vec<u8> = Vec::new();
    for (round, buffer) in rounds.iter().enumerate() {
        let next = reduce(best, round as u32, buffer);
        assert!(next.score() >= best.score());
        best = next;
        scores.push(best.score());
    }
    assert_eq!(scores, vec![9, 9, 10, 200, 200]);
    assert_eq!(best, BestResult::Found { round: 3, nonce: 0, score: 200 });
}

#[test]
fn text_names_round_and_reversed_nonce() {
    let best = BestResult::Found { round: 2, nonce: 120, score: 255 };
    assert_eq!(best.text(), "2-021");
    assert_eq!(best.text_bytes(), b"2-021".to_vec());
    let best = BestResult::Found { round: 0, nonce: 23, score: 255 };
    assert_eq!(best.text(), "0-32");
    let best = BestResult::Found { round: 10, nonce: 0, score: 1 };
    assert_eq!(best.text(), "10-0");
}

#[test]
fn text_of_nothing_is_empty() {
    assert_eq!(BestResult::Nothing.text(), "");
    assert_eq!(BestResult::Nothing.text_bytes(), Vec::<u8>::new());
}
